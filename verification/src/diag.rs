//! Source locations and the failure values the compiler can report.

use vstd::prelude::*;

verus! {

/// A position in a source file: 1-based row and column.
#[derive(Debug)]
pub struct Loc {
    pub file_path: String,
    pub row: usize,
    pub col: usize,
}

/// Mathematical image of a [`Loc`].
#[verifier::ext_equal]
pub ghost struct LocV {
    pub file_path: Seq<char>,
    pub row: int,
    pub col: int,
}

impl View for Loc {
    type V = LocV;

    open spec fn view(&self) -> LocV {
        LocV { file_path: self.file_path@, row: self.row as int, col: self.col as int }
    }
}

impl DeepView for Loc {
    type V = LocV;

    open spec fn deep_view(&self) -> LocV {
        self.view()
    }
}

/// A failure raised while generating code.
///
/// `EncodingUnsupported` carries the operand value or length that fell
/// outside the representable range of the compact operand encoding or of a
/// chunk length field.  `UnknownVariable` carries the name and source
/// location of a variable that is not a parameter of the enclosing function.
#[derive(Debug)]
pub enum CompileError {
    EncodingUnsupported(i128),
    UnknownVariable { name: String, loc: Loc },
}

/// Mathematical image of a [`CompileError`].
#[verifier::ext_equal]
pub ghost enum CErrV {
    EncodingUnsupported(int),
    UnknownVariable { name: Seq<char>, loc: LocV },
}

impl View for CompileError {
    type V = CErrV;

    open spec fn view(&self) -> CErrV {
        match self {
            CompileError::EncodingUnsupported(n) => CErrV::EncodingUnsupported(*n as int),
            CompileError::UnknownVariable { name, loc } => CErrV::UnknownVariable {
                name: name@,
                loc: loc@,
            },
        }
    }
}

impl DeepView for CompileError {
    type V = CErrV;

    open spec fn deep_view(&self) -> CErrV {
        self.view()
    }
}

} // verus!
