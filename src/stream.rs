//! What the start/stop control asks of the capture stream.
use vstd::prelude::*;

verus! {

#[derive(Clone, Copy, Debug, PartialEq, Eq, Structural)]
pub enum StreamCommand {
    Play,
    Pause,
}

/// A click on the control pauses a playing stream and starts a paused one.
pub fn on_click(is_playing: bool) -> (r: StreamCommand)
    ensures
        r == (if is_playing { StreamCommand::Pause } else { StreamCommand::Play }),
{
    if is_playing {
        StreamCommand::Pause
    } else {
        StreamCommand::Play
    }
}

/// Whether the stream plays once `command` has been carried out.
pub fn playing_after(command: StreamCommand) -> (r: bool)
    ensures
        r == (command == StreamCommand::Play),
{
    match command {
        StreamCommand::Play => true,
        StreamCommand::Pause => false,
    }
}

} // verus!
