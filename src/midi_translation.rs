use vstd::prelude::*;

use crate::decimal::{nat_text, number_text};
use vstd::string::StringExecFns;

verus! {

/// The letter names of the twelve tones of an octave.
pub open spec fn tone_letter(index: int) -> Seq<char> {
    if index == 0 {
        seq!['c']
    } else if index == 1 {
        seq!['d', 'b']
    } else if index == 2 {
        seq!['d']
    } else if index == 3 {
        seq!['e', 'b']
    } else if index == 4 {
        seq!['e']
    } else if index == 5 {
        seq!['f']
    } else if index == 6 {
        seq!['g', 'b']
    } else if index == 7 {
        seq!['g']
    } else if index == 8 {
        seq!['a', 'b']
    } else if index == 9 {
        seq!['a']
    } else if index == 10 {
        seq!['b', 'b']
    } else {
        seq!['b']
    }
}

/// The name of a tone: its letter, then `tone / 11 + 1` as the octave.
pub open spec fn tone_name(tone: u8) -> Seq<char> {
    if tone == 0 {
        seq!['c', '1']
    } else {
        tone_letter((tone % 12) as int) + nat_text((tone / 11 + 1) as nat)
    }
}

fn letter_of(index: u8) -> (r: &'static str)
    requires
        index < 12,
    ensures
        r@ == tone_letter(index as int),
{
    proof {
        reveal_strlit("c");
        reveal_strlit("db");
        reveal_strlit("d");
        reveal_strlit("eb");
        reveal_strlit("e");
        reveal_strlit("f");
        reveal_strlit("gb");
        reveal_strlit("g");
        reveal_strlit("ab");
        reveal_strlit("a");
        reveal_strlit("bb");
        reveal_strlit("b");
    }
    let r = match index {
        0 => "c",
        1 => "db",
        2 => "d",
        3 => "eb",
        4 => "e",
        5 => "f",
        6 => "gb",
        7 => "g",
        8 => "ab",
        9 => "a",
        10 => "bb",
        _ => "b",
    };
    assert(r@ =~= tone_letter(index as int));
    r
}

/// Names a MIDI tone for notation, e.g. `db1` for 1.
pub fn tone_to_oletter(tone: u8) -> (r: String)
    ensures
        r@ == tone_name(tone),
{
    if tone == 0 {
        proof {
            reveal_strlit("c1");
        }
        let r = String::from_str("c1");
        assert(r@ =~= seq!['c', '1']);
        return r;
    }
    let mut name = String::from_str(letter_of(tone % 12));
    let octave = number_text((tone / 11 + 1) as u64);
    name.append(octave.as_str());
    name
}

} // verus!
