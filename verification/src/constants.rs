//! Named kinds that the configuration of the calculator refers to.
use vstd::prelude::*;

verus! {

/// The units a duration is written in.
#[derive(Clone, Copy, Debug, PartialEq, Eq, Structural)]
pub enum DurationFormatType {
    Second,
    Minute,
    Hour,
    Day,
    Week,
    Month,
    Year,
}

/// How a language writes an amount of one unit of time: `count` is the
/// amount the format is for (or not a number, for any amount), `format`
/// the text, with a placeholder for the amount.
pub struct DurationFormat {
    pub count: String,
    pub format: String,
    pub duration_type: DurationFormatType,
}

/// A month of a language: its short and long name and its number.
pub struct MonthInfo {
    pub short: String,
    pub long: String,
    pub month: u8,
}

impl MonthInfo {
    pub fn duplicate(&self) -> (r: MonthInfo)
        ensures
            r == *self,
    {
        MonthInfo { short: self.short.clone(), long: self.long.clone(), month: self.month }
    }
}

/// Words that stand for a unit of time or a day.
#[derive(Clone, Copy, Debug, PartialEq, Eq, Structural)]
pub enum ConstantType {
    Empty,
    Day,
    Week,
    Month,
    Year,
    Second,
    Minute,
    Hour,
    Today,
    Tomorrow,
    Yesterday,
    Now,
}

/// The constant with a given number, 1 to 11; no constant is numbered 0.
pub open spec fn spec_constant_from_u8(number: u8) -> Option<ConstantType> {
    if number == 1 {
        Some(ConstantType::Day)
    } else if number == 2 {
        Some(ConstantType::Week)
    } else if number == 3 {
        Some(ConstantType::Month)
    } else if number == 4 {
        Some(ConstantType::Year)
    } else if number == 5 {
        Some(ConstantType::Second)
    } else if number == 6 {
        Some(ConstantType::Minute)
    } else if number == 7 {
        Some(ConstantType::Hour)
    } else if number == 8 {
        Some(ConstantType::Today)
    } else if number == 9 {
        Some(ConstantType::Tomorrow)
    } else if number == 10 {
        Some(ConstantType::Yesterday)
    } else if number == 11 {
        Some(ConstantType::Now)
    } else {
        None
    }
}

impl ConstantType {
    /// The constant with a given number.
    pub fn from_u8(number: u8) -> (r: Option<ConstantType>)
        ensures
            r == spec_constant_from_u8(number),
    {
        match number {
            1 => Some(ConstantType::Day),
            2 => Some(ConstantType::Week),
            3 => Some(ConstantType::Month),
            4 => Some(ConstantType::Year),
            5 => Some(ConstantType::Second),
            6 => Some(ConstantType::Minute),
            7 => Some(ConstantType::Hour),
            8 => Some(ConstantType::Today),
            9 => Some(ConstantType::Tomorrow),
            10 => Some(ConstantType::Yesterday),
            11 => Some(ConstantType::Now),
            _ => None,
        }
    }

    /// The number of the constant.
    pub fn to_u8(&self) -> (r: u8)
        ensures
            *self != ConstantType::Empty ==> spec_constant_from_u8(r) == Some(*self),
            *self == ConstantType::Empty ==> r == 0,
    {
        match self {
            ConstantType::Empty => 0,
            ConstantType::Day => 1,
            ConstantType::Week => 2,
            ConstantType::Month => 3,
            ConstantType::Year => 4,
            ConstantType::Second => 5,
            ConstantType::Minute => 6,
            ConstantType::Hour => 7,
            ConstantType::Today => 8,
            ConstantType::Tomorrow => 9,
            ConstantType::Yesterday => 10,
            ConstantType::Now => 11,
        }
    }
}

/// Exactly the numbers 1 to 11 name a constant.
pub proof fn lemma_constant_numbers(number: u8)
    ensures
        spec_constant_from_u8(number) is Some <==> 1 <= number <= 11,
{
}

/// The large-number words, by the power of a thousand they stand for.
#[derive(Clone, Copy, Debug, PartialEq, Eq, Structural)]
pub enum NumberNotationType {
    Plain,
    Thousand,
    Million,
    Billion,
    Trillion,
    Quadrillion,
    Quintillion,
    Sextillion,
}

impl NumberNotationType {
    /// The power of a thousand the word stands for.
    pub fn to_u8(&self) -> (r: u8)
        ensures
            r <= 7,
            *self == NumberNotationType::Plain <==> r == 0,
            *self == NumberNotationType::Thousand <==> r == 1,
            *self == NumberNotationType::Million <==> r == 2,
            *self == NumberNotationType::Billion <==> r == 3,
            *self == NumberNotationType::Trillion <==> r == 4,
            *self == NumberNotationType::Quadrillion <==> r == 5,
            *self == NumberNotationType::Quintillion <==> r == 6,
            *self == NumberNotationType::Sextillion <==> r == 7,
    {
        match self {
            NumberNotationType::Plain => 0,
            NumberNotationType::Thousand => 1,
            NumberNotationType::Million => 2,
            NumberNotationType::Billion => 3,
            NumberNotationType::Trillion => 4,
            NumberNotationType::Quadrillion => 5,
            NumberNotationType::Quintillion => 6,
            NumberNotationType::Sextillion => 7,
        }
    }

    /// The word for a power of a thousand, 0 to 7.
    pub fn from_u8(number: u8) -> (r: Option<NumberNotationType>)
        ensures
            number <= 7 <==> r is Some,
            r matches Some(t) ==> t.to_u8_spec() == number,
    {
        match number {
            0 => Some(NumberNotationType::Plain),
            1 => Some(NumberNotationType::Thousand),
            2 => Some(NumberNotationType::Million),
            3 => Some(NumberNotationType::Billion),
            4 => Some(NumberNotationType::Trillion),
            5 => Some(NumberNotationType::Quadrillion),
            6 => Some(NumberNotationType::Quintillion),
            7 => Some(NumberNotationType::Sextillion),
            _ => None,
        }
    }

    pub open spec fn to_u8_spec(&self) -> u8 {
        match *self {
            NumberNotationType::Plain => 0,
            NumberNotationType::Thousand => 1,
            NumberNotationType::Million => 2,
            NumberNotationType::Billion => 3,
            NumberNotationType::Trillion => 4,
            NumberNotationType::Quadrillion => 5,
            NumberNotationType::Quintillion => 6,
            NumberNotationType::Sextillion => 7,
        }
    }
}

} // verus!
