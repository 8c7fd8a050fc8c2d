//! The names an embedding usually needs, in one place.

pub use crate::emitter::emit;
pub use crate::htn_vm::{
    DynValue, EndState, Error, HostReply, HostRequest, HtnVm, Num, Operation, Outcome,
};
pub use crate::lexer::htn_lexer;
pub use crate::parsing::{htn_parser, BinaryOp, HtnInstr, ParseValue, UnaryOp};
pub use crate::tokens::{FlowSym, HtnToken, Keyword, OpSym, VmValue};
