//! What holds of the answers of the library, whatever it is asked: laws over the
//! arguments and the results of its functions.
pub mod asking;
pub mod browse;
pub mod captions;
pub mod choice;
pub mod clock;
pub mod health;
pub mod keeping;
pub mod naming;
pub mod refusing;
pub mod sami;
pub mod search;
pub mod serving;
pub mod spoken;
pub mod subrip;
pub mod telling;
pub mod tracks;
pub mod webvtt;
