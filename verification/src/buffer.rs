//! A conversation buffer: the lines a client keeps for one channel or query,
//! as plain values.

use vstd::prelude::*;

use crate::message::{Source, SourceModel};

verus! {

/// The mathematical shape of one buffer line.
pub struct LineModel {
    pub source: SourceModel,
    pub id: i64,
    pub message: Seq<char>,
}

/// One line of a buffer: who said it, its identifier, and its text.
#[derive(Debug, Clone, PartialEq)]
pub struct Line {
    pub source: Source,
    pub id: i64,
    pub message: String,
}

impl View for Line {
    type V = LineModel;

    open spec fn view(&self) -> LineModel {
        LineModel { source: self.source@, id: self.id, message: self.message@ }
    }
}

impl DeepView for Line {
    type V = LineModel;

    open spec fn deep_view(&self) -> LineModel {
        self.view()
    }
}

/// The mathematical shape of a buffer.
pub struct BufferModel {
    pub id: u64,
    pub name: Seq<char>,
    pub motd: Option<Seq<char>>,
    pub lines: Seq<LineModel>,
}

/// A named conversation buffer with its lines and optional message of the
/// day.
#[derive(Debug, Clone, PartialEq)]
pub struct Buffer {
    pub id: u64,
    pub name: String,
    pub motd: Option<String>,
    pub lines: Vec<Line>,
}

impl View for Buffer {
    type V = BufferModel;

    open spec fn view(&self) -> BufferModel {
        BufferModel {
            id: self.id,
            name: self.name@,
            motd: self.motd.deep_view(),
            lines: self.lines.deep_view(),
        }
    }
}

impl DeepView for Buffer {
    type V = BufferModel;

    open spec fn deep_view(&self) -> BufferModel {
        self.view()
    }
}

} // verus!
