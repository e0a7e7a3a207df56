//! The coded values that replies carry and that some commands take.
use vstd::prelude::*;

use crate::error::{CodeKind, LssDriverError};

verus! {

/// Colors for the LED on the servo.
#[derive(Clone, Copy, Debug, PartialEq, Eq, Structural)]
pub enum LedColor {
    Off,
    Red,
    Green,
    Blue,
    Yellow,
    Cyan,
    Magenta,
    White,
}

impl LedColor {
    /// The protocol code of the color.
    pub open spec fn code(self) -> int {
        match self {
            LedColor::Off => 0,
            LedColor::Red => 1,
            LedColor::Green => 2,
            LedColor::Blue => 3,
            LedColor::Yellow => 4,
            LedColor::Cyan => 5,
            LedColor::Magenta => 6,
            LedColor::White => 7,
        }
    }

    pub fn to_i32(&self) -> (r: i32)
        ensures
            r == self.code(),
    {
        match self {
            LedColor::Off => 0,
            LedColor::Red => 1,
            LedColor::Green => 2,
            LedColor::Blue => 3,
            LedColor::Yellow => 4,
            LedColor::Cyan => 5,
            LedColor::Magenta => 6,
            LedColor::White => 7,
        }
    }

    /// The color with the given code; any other integer is refused.
    pub fn from_i32(number: i32) -> (r: Result<LedColor, LssDriverError>)
        ensures
            r is Ok <==> 0 <= number <= 7,
            r matches Ok(c) ==> c.code() == number,
            r matches Err(e) ==> e == (LssDriverError::UnrecognizedEnumValue {
                kind: CodeKind::LedColor,
                value: number,
            }),
    {
        match number {
            0 => Ok(LedColor::Off),
            1 => Ok(LedColor::Red),
            2 => Ok(LedColor::Green),
            3 => Ok(LedColor::Blue),
            4 => Ok(LedColor::Yellow),
            5 => Ok(LedColor::Cyan),
            6 => Ok(LedColor::Magenta),
            7 => Ok(LedColor::White),
            value => Err(LssDriverError::UnrecognizedEnumValue { kind: CodeKind::LedColor, value }),
        }
    }
}

/// Status of the motor as reported by the status query.
/// In safe mode the safety status query tells why.
#[derive(Clone, Copy, Debug, PartialEq, Eq, Structural)]
pub enum MotorStatus {
    Unknown,
    Limp,
    FreeMoving,
    Accelerating,
    Traveling,
    Decelerating,
    Holding,
    OutsideLimits,
    Stuck,
    Blocked,
    SafeMode,
}

impl MotorStatus {
    /// The protocol code of the status.
    pub open spec fn code(self) -> int {
        match self {
            MotorStatus::Unknown => 0,
            MotorStatus::Limp => 1,
            MotorStatus::FreeMoving => 2,
            MotorStatus::Accelerating => 3,
            MotorStatus::Traveling => 4,
            MotorStatus::Decelerating => 5,
            MotorStatus::Holding => 6,
            MotorStatus::OutsideLimits => 7,
            MotorStatus::Stuck => 8,
            MotorStatus::Blocked => 9,
            MotorStatus::SafeMode => 10,
        }
    }

    /// The status with the given code; any other integer is refused.
    pub fn from_i32(number: i32) -> (r: Result<MotorStatus, LssDriverError>)
        ensures
            r is Ok <==> 0 <= number <= 10,
            r matches Ok(s) ==> s.code() == number,
            r matches Err(e) ==> e == (LssDriverError::UnrecognizedEnumValue {
                kind: CodeKind::MotorStatus,
                value: number,
            }),
    {
        match number {
            0 => Ok(MotorStatus::Unknown),
            1 => Ok(MotorStatus::Limp),
            2 => Ok(MotorStatus::FreeMoving),
            3 => Ok(MotorStatus::Accelerating),
            4 => Ok(MotorStatus::Traveling),
            5 => Ok(MotorStatus::Decelerating),
            6 => Ok(MotorStatus::Holding),
            7 => Ok(MotorStatus::OutsideLimits),
            8 => Ok(MotorStatus::Stuck),
            9 => Ok(MotorStatus::Blocked),
            10 => Ok(MotorStatus::SafeMode),
            value => Err(
                LssDriverError::UnrecognizedEnumValue { kind: CodeKind::MotorStatus, value },
            ),
        }
    }
}

/// Why safe mode is engaged; `NoLimits` when the motor is not in safe mode.
#[derive(Clone, Copy, Debug, PartialEq, Eq, Structural)]
pub enum SafeModeStatus {
    NoLimits,
    /// Most likely the motor was overloaded.
    CurrentLimit,
    /// The input voltage is too high or too low.
    InputVoltageOutOfRange,
    TemperatureLimit,
}

impl SafeModeStatus {
    /// The protocol code of the safety status.
    pub open spec fn code(self) -> int {
        match self {
            SafeModeStatus::NoLimits => 0,
            SafeModeStatus::CurrentLimit => 1,
            SafeModeStatus::InputVoltageOutOfRange => 2,
            SafeModeStatus::TemperatureLimit => 3,
        }
    }

    /// The safety status with the given code; any other integer is refused.
    pub fn from_i32(number: i32) -> (r: Result<SafeModeStatus, LssDriverError>)
        ensures
            r is Ok <==> 0 <= number <= 3,
            r matches Ok(s) ==> s.code() == number,
            r matches Err(e) ==> e == (LssDriverError::UnrecognizedEnumValue {
                kind: CodeKind::SafeModeStatus,
                value: number,
            }),
    {
        match number {
            0 => Ok(SafeModeStatus::NoLimits),
            1 => Ok(SafeModeStatus::CurrentLimit),
            2 => Ok(SafeModeStatus::InputVoltageOutOfRange),
            3 => Ok(SafeModeStatus::TemperatureLimit),
            value => Err(
                LssDriverError::UnrecognizedEnumValue { kind: CodeKind::SafeModeStatus, value },
            ),
        }
    }
}

/// Hardware model of the servo.
#[derive(Clone, Debug, PartialEq)]
pub enum Model {
    /// Standard model.
    ST1,
    /// High speed model.
    HS1,
    /// High torque model.
    HT1,
    /// A model identifier this library does not know, kept verbatim.
    Other(String),
}

impl Model {
    /// The model named by a model-string reply.
    pub fn from_str(model: &str) -> (r: Model)
        ensures
            r is ST1 <==> model@ == "LSS-ST1"@,
            r is HS1 <==> model@ == "LSS-HS1"@,
            r is HT1 <==> model@ == "LSS-HT1"@,
            r matches Model::Other(name) ==> name@ == model@,
    {
        proof {
            reveal_strlit("LSS-ST1");
            reveal_strlit("LSS-HS1");
            reveal_strlit("LSS-HT1");
            assert("LSS-ST1"@[4] != "LSS-HS1"@[4]);
            assert("LSS-ST1"@[4] != "LSS-HT1"@[4]);
            assert("LSS-HS1"@[5] != "LSS-HT1"@[5]);
        }
        let name = model.to_owned();
        if name == "LSS-ST1".to_owned() {
            Model::ST1
        } else if name == "LSS-HS1".to_owned() {
            Model::HS1
        } else if name == "LSS-HT1".to_owned() {
            Model::HT1
        } else {
            Model::Other(name)
        }
    }
}

/// A status during which the LED blinks. Several can be combined.
#[derive(Clone, Copy, Debug, PartialEq, Eq, Structural)]
pub enum LedBlinking {
    NoBlinking,
    Limp,
    Holding,
    Accelerating,
    Decelerating,
    Free,
    Travelling,
    AlwaysBlink,
}

/// The largest combined blinking value: every status at once.
pub const MAX_BLINKING: i32 = 63;

/// The sum of the flag values of a list of blinking statuses.
pub open spec fn flags_sum(modes: Seq<LedBlinking>) -> int
    decreases modes.len(),
{
    if modes.len() == 0 {
        0
    } else {
        flags_sum(modes.drop_last()) + modes.last().flag()
    }
}

/// A sum of blinking flags, capped at the largest combined value.
pub open spec fn clamped_flags(modes: Seq<LedBlinking>) -> int {
    if flags_sum(modes) < MAX_BLINKING {
        flags_sum(modes)
    } else {
        MAX_BLINKING as int
    }
}

impl LedBlinking {
    /// The flag value of the status.
    pub open spec fn flag(self) -> int {
        match self {
            LedBlinking::NoBlinking => 0,
            LedBlinking::Limp => 1,
            LedBlinking::Holding => 2,
            LedBlinking::Accelerating => 4,
            LedBlinking::Decelerating => 8,
            LedBlinking::Free => 16,
            LedBlinking::Travelling => 32,
            LedBlinking::AlwaysBlink => 63,
        }
    }

    pub fn to_i32(&self) -> (r: i32)
        ensures
            r == self.flag(),
    {
        match self {
            LedBlinking::NoBlinking => 0,
            LedBlinking::Limp => 1,
            LedBlinking::Holding => 2,
            LedBlinking::Accelerating => 4,
            LedBlinking::Decelerating => 8,
            LedBlinking::Free => 16,
            LedBlinking::Travelling => 32,
            LedBlinking::AlwaysBlink => 63,
        }
    }

    /// The value that configures blinking during all the given statuses: the
    /// sum of their flags, capped at `MAX_BLINKING`. Repeated or overlapping
    /// flags are simply added.
    pub fn combined(modes: &[LedBlinking]) -> (r: i32)
        ensures
            r == clamped_flags(modes@),
    {
        let mut total: i32 = 0;
        let mut i: usize = 0;
        while i < modes.len()
            invariant
                0 <= i <= modes.len(),
                total == clamped_flags(modes@.take(i as int)),
            decreases modes.len() - i,
        {
            proof {
                assert(modes@.take(i + 1).drop_last() =~= modes@.take(i as int));
                assert(modes@.take(i + 1).last() == modes@[i as int]);
                lemma_flags_sum_nonnegative(modes@.take(i as int));
            }
            let sum = total + modes[i].to_i32();
            total = if sum < MAX_BLINKING {
                sum
            } else {
                MAX_BLINKING
            };
            i = i + 1;
        }
        assert(modes@.take(modes.len() as int) =~= modes@);
        total
    }
}

proof fn lemma_flags_sum_nonnegative(modes: Seq<LedBlinking>)
    ensures
        flags_sum(modes) >= 0,
    decreases modes.len(),
{
    if modes.len() > 0 {
        lemma_flags_sum_nonnegative(modes.drop_last());
    }
}

} // verus!
