//! The file pipeline state machine: a loaded file advances through
//! `Raw` → `Decompressed` → `Parsed`, one fallible stage at a time, and
//! stays where it is when a stage fails so the caller may retry or abandon.

use vstd::prelude::*;

use crate::codec::{decode, spec_decode, DecodeError};
use crate::parser::{parse, spec_parse, ParseError};
use crate::session::{SessionTree, WindowV};

verus! {

/// How far a loaded file has come.
pub enum Stage {
    /// The bytes as read from disk.
    Raw(Vec<u8>),
    /// The decompressed session document.
    Decompressed(Vec<u8>),
    /// The parsed session tree.
    Parsed(SessionTree),
}

/// Mathematical model of a `Stage`.
pub ghost enum StageV {
    Raw(Seq<u8>),
    Decompressed(Seq<u8>),
    Parsed(Seq<WindowV>),
}

impl View for Stage {
    type V = StageV;

    open spec fn view(&self) -> StageV {
        match self {
            Stage::Raw(b) => StageV::Raw(b@),
            Stage::Decompressed(b) => StageV::Decompressed(b@),
            Stage::Parsed(t) => StageV::Parsed(t@),
        }
    }
}

/// Why the pipeline could not advance.
#[derive(Clone, Copy, Debug, PartialEq, Eq, Structural)]
pub enum PipelineError {
    /// The container decoder refused the raw bytes.
    Decode(DecodeError),
    /// The session parser refused the decompressed bytes.
    Parse(ParseError),
}

/// One loaded input file and the stage it has reached.
pub struct FileRecord {
    pub source_path: String,
    pub stage: Stage,
}

/// Mathematical model of a `FileRecord`.
pub ghost struct FileRecordV {
    pub source_path: Seq<char>,
    pub stage: StageV,
}

impl View for FileRecord {
    type V = FileRecordV;

    open spec fn view(&self) -> FileRecordV {
        FileRecordV { source_path: self.source_path@, stage: self.stage@ }
    }
}

/// How far along a stage is: the pipeline only ever moves forward.
pub open spec fn stage_rank(st: StageV) -> int {
    match st {
        StageV::Raw(_) => 0,
        StageV::Decompressed(_) => 1,
        StageV::Parsed(_) => 2,
    }
}

/// The status line that announces the work of the next transition.
pub open spec fn spec_pending_status(st: StageV) -> Seq<char> {
    match st {
        StageV::Raw(_) => "Decompressing data"@,
        StageV::Decompressed(_) => "Parsing session data"@,
        StageV::Parsed(_) => "Successfully loaded session data"@,
    }
}

impl FileRecord {
    /// A fresh load always starts at `Raw`.
    pub fn new(source_path: String, raw: Vec<u8>) -> (r: FileRecord)
        ensures
            r@.source_path == source_path@,
            r@.stage == StageV::Raw(raw@),
    {
        FileRecord { source_path, stage: Stage::Raw(raw) }
    }

    /// The status message to report before attempting the next transition,
    /// or the terminal success message at `Parsed`.
    pub fn pending_status(&self) -> (r: &'static str)
        ensures
            r@ == spec_pending_status(self@.stage),
    {
        match &self.stage {
            Stage::Raw(_) => "Decompressing data",
            Stage::Decompressed(_) => "Parsing session data",
            Stage::Parsed(_) => "Successfully loaded session data",
        }
    }

    /// The parsed tree, once the pipeline has reached `Parsed`.
    pub fn parsed_tree(&self) -> (r: Option<&SessionTree>)
        ensures
            match self@.stage {
                StageV::Parsed(ws) => r is Some && r->Some_0@ == ws,
                _ => r is None,
            },
    {
        match &self.stage {
            Stage::Parsed(t) => Some(t),
            _ => None,
        }
    }

    /// Drives the file one stage forward. On failure the record keeps its
    /// stage and the error says which stage refused; re-invoking retries the
    /// same transition. At `Parsed` there is nothing left to do.
    pub fn advance(&mut self) -> (r: Result<(), PipelineError>)
        ensures
            final(self)@.source_path == old(self)@.source_path,
            stage_rank(final(self)@.stage) >= stage_rank(old(self)@.stage),
            match old(self)@.stage {
                StageV::Raw(b) => match spec_decode(b) {
                    Ok(d) => r is Ok && final(self)@.stage == StageV::Decompressed(d),
                    Err(e) => r == Err::<(), PipelineError>(PipelineError::Decode(e))
                        && final(self)@ == old(self)@,
                },
                StageV::Decompressed(d) => match spec_parse(d) {
                    Ok(ws) => r is Ok && final(self)@.stage == StageV::Parsed(ws),
                    Err(e) => r == Err::<(), PipelineError>(PipelineError::Parse(e))
                        && final(self)@ == old(self)@,
                },
                StageV::Parsed(_) => r is Ok && final(self)@ == old(self)@,
            },
    {
        match &self.stage {
            Stage::Raw(b) => {
                match decode(b) {
                    Ok(d) => {
                        self.stage = Stage::Decompressed(d);
                        Ok(())
                    },
                    Err(e) => Err(PipelineError::Decode(e)),
                }
            },
            Stage::Decompressed(d) => {
                match parse(d) {
                    Ok(t) => {
                        self.stage = Stage::Parsed(t);
                        Ok(())
                    },
                    Err(e) => Err(PipelineError::Parse(e)),
                }
            },
            Stage::Parsed(_) => Ok(()),
        }
    }
}

} // verus!
