//! Checks that a module and frames made elsewhere are fit to run.

use vstd::prelude::*;
use crate::activation::declared_argument_count;
use crate::frame::CallFrame;
use crate::operands::{frame_sound, module_valid, program_valid};
use crate::program::Module;
use crate::unwinding::frames_sound;

verus! {

/// Whether every procedure of a module has a consistent parameter list.
pub fn check_module(module: &Module) -> (valid: bool)
    ensures
        valid == module_valid(*module),
{
    let mut at: usize = 0;
    while at < module.procedures.len()
        invariant
            at <= module.procedures@.len(),
            forall|i: int| 0 <= i < at ==> program_valid(#[trigger] module.procedures@[i]),
        decreases module.procedures@.len() - at,
    {
        let program = &module.procedures[at];
        if declared_argument_count(program) > program.parameter_count {
            assert(!program_valid(module.procedures@[at as int]));
            return false;
        }
        at += 1;
    }
    true
}

/// Whether a frame, and each frame that follows its return, fits its procedure.
pub fn check_frame(module: &Module, frame: &CallFrame) -> (sound: bool)
    ensures
        sound == frame_sound(*module, frame@),
    decreases frame,
{
    if frame.declared_argument_count > frame.arguments.len() {
        return false;
    }
    if let Some(program) = module.procedure(frame.procedure) {
        if frame.declared_argument_count != declared_argument_count(program) {
            return false;
        }
    }
    match &frame.cold {
        Some(cold) => match &cold.engine_post_return {
            Some(next) => check_frame(module, next),
            None => true,
        },
        None => true,
    }
}

/// Whether a stack of frames is fit to run.
pub fn check_frames(module: &Module, frames: &Vec<CallFrame>) -> (sound: bool)
    ensures
        sound == frames_sound(*module, frames@),
{
    let count: usize = frames.len();
    let mut at: usize = 0;
    while at < count
        invariant
            at <= count == frames@.len(),
            forall|i: int| 0 <= i < at ==> frame_sound(*module, (#[trigger] frames@[i])@),
            forall|i: int|
                0 <= i < at && i < count - 1 ==> (#[trigger] frames@[i])@.instruction < usize::MAX,
        decreases count - at,
    {
        if !check_frame(module, &frames[at]) {
            assert(!frame_sound(*module, frames@[at as int]@));
            return false;
        }
        if at + 1 < count && frames[at].instruction == usize::MAX {
            assert(frames@[at as int]@.instruction == usize::MAX);
            return false;
        }
        at += 1;
    }
    true
}

} // verus!
