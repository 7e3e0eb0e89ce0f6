//! The choices that a command line offers by name.

use vstd::prelude::*;
use crate::easing::EasingFunction;
use crate::effects::shine::ShineStart;

verus! {

/// The easing curves that can be asked for.
#[derive(Debug, Clone, Copy, PartialEq, Eq, Structural)]
pub enum EasingType {
    Linear,
    EaseIn,
    EaseOut,
    EaseInOut,
}

/// The ends of the text that a sweep can be asked to start from.
#[derive(Debug, Clone, Copy, PartialEq, Eq, Structural)]
pub enum StartType {
    Beginning,
    End,
}

impl EasingType {
    /// The curve of this name.
    pub open spec fn curve(self) -> EasingFunction {
        match self {
            EasingType::Linear => EasingFunction::Linear,
            EasingType::EaseIn => EasingFunction::EaseIn,
            EasingType::EaseOut => EasingFunction::EaseOut,
            EasingType::EaseInOut => EasingFunction::EaseInOut,
        }
    }

    /// The curve of this name.
    pub fn easing_function(&self) -> (easing: EasingFunction)
        ensures
            easing == self.curve(),
    {
        match self {
            EasingType::Linear => EasingFunction::Linear,
            EasingType::EaseIn => EasingFunction::EaseIn,
            EasingType::EaseOut => EasingFunction::EaseOut,
            EasingType::EaseInOut => EasingFunction::EaseInOut,
        }
    }
}

impl StartType {
    /// The end of this name.
    pub open spec fn end(self) -> ShineStart {
        match self {
            StartType::Beginning => ShineStart::Beginning,
            StartType::End => ShineStart::End,
        }
    }

    /// The end of this name.
    pub fn shine_start(&self) -> (start: ShineStart)
        ensures
            start == self.end(),
    {
        match self {
            StartType::Beginning => ShineStart::Beginning,
            StartType::End => ShineStart::End,
        }
    }
}

} // verus!
