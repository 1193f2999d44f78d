//! Field types of editor components, read from the text the editor stores.
use crate::decimal::{parse_integer, parsed_integer, MAGNITUDE_LIMIT};
use crate::text::chars_of;
use vstd::prelude::*;

verus! {

/// A type that a field of an editor component can have.
pub trait KissingComponentField: Sized {
    /// Whether `r` is the value that the editor text `input` gives.
    spec fn from_editor(input: Seq<char>, r: Self) -> bool;

    fn parse_from_editor_input(input: &String) -> (r: Self)
        ensures
            Self::from_editor(input@, r),
    ;
}

impl KissingComponentField for String {
    open spec fn from_editor(input: Seq<char>, r: String) -> bool {
        r@ == input
    }

    fn parse_from_editor_input(input: &String) -> (r: String) {
        input.clone()
    }
}

/// The integer that `s` writes where it lies in `[min, max]`, else zero.
pub open spec fn editor_integer(s: Seq<char>, signed: bool, min: int, max: int) -> int {
    match parsed_integer(s, signed) {
        Some(v) => if min <= v <= max {
            v
        } else {
            0
        },
        None => 0,
    }
}

fn parse_in_range(input: &String, signed: bool, min: i128, max: i128) -> (r: i128)
    requires
        -(MAGNITUDE_LIMIT as int) <= min <= 0 <= max <= MAGNITUDE_LIMIT as int,
    ensures
        r == editor_integer(input@, signed, min as int, max as int),
        min <= r <= max,
{
    let cs = chars_of(input.as_str());
    assert(cs@.subrange(0, cs@.len() as int) =~= input@);
    match parse_integer(&cs, 0, cs.len(), signed) {
        Some(v) => {
            if min <= v && v <= max {
                v
            } else {
                0
            }
        },
        None => 0,
    }
}

impl KissingComponentField for i8 {
    open spec fn from_editor(input: Seq<char>, r: i8) -> bool {
        r as int == editor_integer(input, true, i8::MIN as int, i8::MAX as int)
    }

    fn parse_from_editor_input(input: &String) -> (r: i8) {
        parse_in_range(input, true, i8::MIN as i128, i8::MAX as i128) as i8
    }
}

impl KissingComponentField for i16 {
    open spec fn from_editor(input: Seq<char>, r: i16) -> bool {
        r as int == editor_integer(input, true, i16::MIN as int, i16::MAX as int)
    }

    fn parse_from_editor_input(input: &String) -> (r: i16) {
        parse_in_range(input, true, i16::MIN as i128, i16::MAX as i128) as i16
    }
}

impl KissingComponentField for i32 {
    open spec fn from_editor(input: Seq<char>, r: i32) -> bool {
        r as int == editor_integer(input, true, i32::MIN as int, i32::MAX as int)
    }

    fn parse_from_editor_input(input: &String) -> (r: i32) {
        parse_in_range(input, true, i32::MIN as i128, i32::MAX as i128) as i32
    }
}

impl KissingComponentField for i64 {
    open spec fn from_editor(input: Seq<char>, r: i64) -> bool {
        r as int == editor_integer(input, true, i64::MIN as int, i64::MAX as int)
    }

    fn parse_from_editor_input(input: &String) -> (r: i64) {
        parse_in_range(input, true, i64::MIN as i128, i64::MAX as i128) as i64
    }
}

impl KissingComponentField for isize {
    open spec fn from_editor(input: Seq<char>, r: isize) -> bool {
        r as int == editor_integer(input, true, isize::MIN as int, isize::MAX as int)
    }

    fn parse_from_editor_input(input: &String) -> (r: isize) {
        parse_in_range(input, true, isize::MIN as i128, isize::MAX as i128) as isize
    }
}

impl KissingComponentField for u8 {
    open spec fn from_editor(input: Seq<char>, r: u8) -> bool {
        r as int == editor_integer(input, false, u8::MIN as int, u8::MAX as int)
    }

    fn parse_from_editor_input(input: &String) -> (r: u8) {
        parse_in_range(input, false, u8::MIN as i128, u8::MAX as i128) as u8
    }
}

impl KissingComponentField for u16 {
    open spec fn from_editor(input: Seq<char>, r: u16) -> bool {
        r as int == editor_integer(input, false, u16::MIN as int, u16::MAX as int)
    }

    fn parse_from_editor_input(input: &String) -> (r: u16) {
        parse_in_range(input, false, u16::MIN as i128, u16::MAX as i128) as u16
    }
}

impl KissingComponentField for u32 {
    open spec fn from_editor(input: Seq<char>, r: u32) -> bool {
        r as int == editor_integer(input, false, u32::MIN as int, u32::MAX as int)
    }

    fn parse_from_editor_input(input: &String) -> (r: u32) {
        parse_in_range(input, false, u32::MIN as i128, u32::MAX as i128) as u32
    }
}

impl KissingComponentField for u64 {
    open spec fn from_editor(input: Seq<char>, r: u64) -> bool {
        r as int == editor_integer(input, false, u64::MIN as int, u64::MAX as int)
    }

    fn parse_from_editor_input(input: &String) -> (r: u64) {
        parse_in_range(input, false, u64::MIN as i128, u64::MAX as i128) as u64
    }
}

impl KissingComponentField for usize {
    open spec fn from_editor(input: Seq<char>, r: usize) -> bool {
        r as int == editor_integer(input, false, usize::MIN as int, usize::MAX as int)
    }

    fn parse_from_editor_input(input: &String) -> (r: usize) {
        parse_in_range(input, false, usize::MIN as i128, usize::MAX as i128) as usize
    }
}

} // verus!
