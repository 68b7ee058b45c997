use vstd::prelude::*;

use crate::rules::ShakeDownChoice;

verus! {

/// ASCII white space, which a command may start with.
pub open spec fn is_blank(c: char) -> bool {
    c == ' ' || c == '\t' || c == '\n' || c == '\r' || c == '\x0B' || c == '\x0C'
}

/// The choice that a command letter names, in either case: `E`verything,
/// `G`old coin, `F`ake coin.
pub open spec fn choice_of_letter(c: char) -> Option<ShakeDownChoice> {
    if c == 'E' || c == 'e' {
        Some(ShakeDownChoice::Everything)
    } else if c == 'G' || c == 'g' {
        Some(ShakeDownChoice::GoldCoin)
    } else if c == 'F' || c == 'f' {
        Some(ShakeDownChoice::FakeCoin)
    } else {
        None
    }
}

/// `i` is the index of the first character of `s` that is not blank.
pub open spec fn is_first_non_blank(s: Seq<char>, i: int) -> bool {
    &&& 0 <= i < s.len()
    &&& !is_blank(s[i])
    &&& forall|j: int| 0 <= j < i ==> is_blank(#[trigger] s[j])
}

fn letter_choice(c: char) -> (r: Option<ShakeDownChoice>)
    ensures
        r == choice_of_letter(c),
{
    if c == 'E' || c == 'e' {
        Some(ShakeDownChoice::Everything)
    } else if c == 'G' || c == 'g' {
        Some(ShakeDownChoice::GoldCoin)
    } else if c == 'F' || c == 'f' {
        Some(ShakeDownChoice::FakeCoin)
    } else {
        None
    }
}

/// Reads the explorer's answer to a shake down from a line of input: its
/// first character that is not blank names the choice. `None` where the line
/// is blank or that letter names no choice; the caller asks again.
pub fn parse_shake_down_command(line: &str) -> (r: Option<ShakeDownChoice>)
    ensures
        forall|i: int| is_first_non_blank(line@, i) ==> r == choice_of_letter(line@[i]),
        (forall|i: int| 0 <= i < line@.len() ==> is_blank(#[trigger] line@[i])) ==> r is None,
{
    let n = line.unicode_len();
    let mut i: usize = 0;
    while i < n
        invariant
            n == line@.len(),
            i <= n,
            forall|j: int| 0 <= j < i ==> is_blank(#[trigger] line@[j]),
        decreases n - i,
    {
        let c = line.get_char(i);
        if !(c == ' ' || c == '\t' || c == '\n' || c == '\r' || c == '\x0B' || c == '\x0C') {
            proof {
                assert forall|k: int| is_first_non_blank(line@, k) implies k == i by {
                    if k < i {
                        assert(is_blank(line@[k]));
                    } else if k > i {
                        assert(is_blank(line@[i as int]));
                    }
                }
            }
            return letter_choice(c);
        }
        i = i + 1;
    }
    None
}

} // verus!
