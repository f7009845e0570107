use vstd::prelude::*;

use crate::title_basics::TitleBasics;

verus! {

/// The dataset table a record or a completion signal belongs to. Only
/// `TitleBasics` is read end to end; the others are reserved.
#[derive(Debug, Clone, Copy, PartialEq, Eq, Hash, Structural)]
pub enum RecordKind {
    TitleBasics,
    TitleGenres,
    TitleAkas,
    TitleCrew,
    TitleEpisodes,
    TitlePrincipals,
    NameBasics,
    TitleRatings,
}

/// What travels from the reader stage to the writer workers: one record, or
/// the signal that a kind's input is exhausted.
#[derive(Debug, Clone, PartialEq)]
pub enum Message {
    TitleBasics(TitleBasics),
    Done(RecordKind),
}

impl Message {
    pub fn title_basics(data: TitleBasics) -> (r: Message)
        ensures
            r == Message::TitleBasics(data),
    {
        Message::TitleBasics(data)
    }

    pub fn done(kind: RecordKind) -> (r: Message)
        ensures
            r == Message::Done(kind),
    {
        Message::Done(kind)
    }
}

} // verus!
