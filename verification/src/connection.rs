//! What a connection to a MIDI port plays when it ends.

use vstd::prelude::*;

use crate::midi::{controller_event, push_event};

verus! {

/// The controller that ends every sounding note of a channel.
pub const ALL_NOTES_OFF: u8 = 123;

/// The number of MIDI channels.
pub const CHANNELS: u8 = 16;

/// The message that ends every sounding note of a channel.
pub open spec fn all_notes_off(channel: int) -> Seq<u8> {
    seq![(0xB0 + channel) as u8, ALL_NOTES_OFF, 0]
}

/// One message for each channel, the lowest first.
pub open spec fn all_channels_off() -> Seq<Seq<u8>> {
    Seq::new(CHANNELS as nat, |channel: int| all_notes_off(channel))
}

/// Every one of the sixteen channels, and no other, is sent the controller that ends its notes.
pub proof fn law_every_channel_off(channel: int)
    ensures
        all_channels_off().len() == 16,
        0 <= channel < 16 ==> all_channels_off()[channel] == seq![(0xB0 + channel) as u8, 123, 0],
{
}

/// The messages that end every sounding note on every channel.
pub fn panic() -> (messages: Vec<Vec<u8>>)
    ensures
        crate::midi::raw(messages@) == all_channels_off(),
        messages@.len() == 16,
        forall|channel: int|
            0 <= channel < 16 ==> (#[trigger] messages@[channel])@ == seq![
                (0xB0 + channel) as u8,
                123,
                0,
            ],
{
    let mut messages: Vec<Vec<u8>> = Vec::new();
    let mut channel: u8 = 0;
    while channel < CHANNELS
        invariant
            channel <= CHANNELS,
            crate::midi::raw(messages@) == all_channels_off().take(channel as int),
        decreases CHANNELS - channel,
    {
        let event = controller_event(channel, ALL_NOTES_OFF, 0);
        push_event(&mut messages, &event);
        channel += 1;
        assert(crate::midi::raw(messages@) =~= all_channels_off().take(channel as int));
    }
    assert(all_channels_off().take(CHANNELS as int) =~= all_channels_off());
    assert(crate::midi::raw(messages@).len() == messages@.len());
    assert forall|channel: int| 0 <= channel < 16 implies (#[trigger] messages@[channel])@ == seq![
        (0xB0 + channel) as u8,
        123,
        0,
    ] by {
        assert(crate::midi::raw(messages@)[channel] == all_channels_off()[channel]);
    }
    messages
}

/// What to play before a connection is closed.
pub fn exit_messages(stop_all_on_exit: bool) -> (messages: Vec<Vec<u8>>)
    ensures
        crate::midi::raw(messages@) == if stop_all_on_exit {
            all_channels_off()
        } else {
            Seq::empty()
        },
        messages@.len() == if stop_all_on_exit {
            16int
        } else {
            0int
        },
        forall|channel: int|
            stop_all_on_exit && 0 <= channel < 16 ==> (#[trigger] messages@[channel])@ == seq![
                (0xB0 + channel) as u8,
                123,
                0,
            ],
{
    if stop_all_on_exit {
        panic()
    } else {
        let messages: Vec<Vec<u8>> = Vec::new();
        assert(crate::midi::raw(messages@) =~= Seq::empty());
        messages
    }
}

} // verus!
