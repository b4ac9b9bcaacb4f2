//! The text of the report: decimal rendering of numbers and the shape of the
//! level markers and recipient fragments, both as specification functions and
//! as verified string builders.

use vstd::prelude::*;
use crate::candidates::{CandidateModel, frontier_cands};
use crate::model::RecordModel;

verus! {

/// The character for one decimal digit.
pub open spec fn digit_char(d: nat) -> char {
    if d == 0 {
        '0'
    } else if d == 1 {
        '1'
    } else if d == 2 {
        '2'
    } else if d == 3 {
        '3'
    } else if d == 4 {
        '4'
    } else if d == 5 {
        '5'
    } else if d == 6 {
        '6'
    } else if d == 7 {
        '7'
    } else if d == 8 {
        '8'
    } else {
        '9'
    }
}

/// The decimal digits of a non-negative number, most significant first.
pub open spec fn dec_digits(n: nat) -> Seq<char>
    decreases n,
{
    if n < 10 {
        seq![digit_char(n)]
    } else {
        dec_digits(n / 10) + seq![digit_char(n % 10)]
    }
}

/// The decimal text of an integer, with a leading minus sign when negative.
pub open spec fn int_text(v: int) -> Seq<char> {
    if v < 0 {
        seq!['-'] + dec_digits((-v) as nat)
    } else {
        dec_digits(v as nat)
    }
}

/// Appends one decimal digit to the output text.
fn append_digit(d: u64, out: &mut String)
    requires
        d < 10,
    ensures
        final(out)@ == old(out)@ + seq![digit_char(d as nat)],
{
    match d {
        0 => {
            proof {
                reveal_strlit("0");
                assert("0"@ =~= seq![digit_char(0)]);
            }
            out.append("0");
        }
        1 => {
            proof {
                reveal_strlit("1");
                assert("1"@ =~= seq![digit_char(1)]);
            }
            out.append("1");
        }
        2 => {
            proof {
                reveal_strlit("2");
                assert("2"@ =~= seq![digit_char(2)]);
            }
            out.append("2");
        }
        3 => {
            proof {
                reveal_strlit("3");
                assert("3"@ =~= seq![digit_char(3)]);
            }
            out.append("3");
        }
        4 => {
            proof {
                reveal_strlit("4");
                assert("4"@ =~= seq![digit_char(4)]);
            }
            out.append("4");
        }
        5 => {
            proof {
                reveal_strlit("5");
                assert("5"@ =~= seq![digit_char(5)]);
            }
            out.append("5");
        }
        6 => {
            proof {
                reveal_strlit("6");
                assert("6"@ =~= seq![digit_char(6)]);
            }
            out.append("6");
        }
        7 => {
            proof {
                reveal_strlit("7");
                assert("7"@ =~= seq![digit_char(7)]);
            }
            out.append("7");
        }
        8 => {
            proof {
                reveal_strlit("8");
                assert("8"@ =~= seq![digit_char(8)]);
            }
            out.append("8");
        }
        _ => {
            proof {
                reveal_strlit("9");
                assert("9"@ =~= seq![digit_char(9)]);
            }
            out.append("9");
        }
    }
}

/// Appends the decimal digits of a non-negative number to the output text.
pub fn append_u64(n: u64, out: &mut String)
    ensures
        final(out)@ == old(out)@ + dec_digits(n as nat),
    decreases n,
{
    if n >= 10 {
        append_u64(n / 10, out);
        append_digit(n % 10, out);
        proof {
            assert(final(out)@ =~= old(out)@ + dec_digits(n as nat));
        }
    } else {
        append_digit(n, out);
    }
}

/// Appends the decimal text of a signed value to the output text.
pub fn append_i64(v: i64, out: &mut String)
    ensures
        final(out)@ == old(out)@ + int_text(v as int),
{
    if v >= 0 {
        append_u64(v as u64, out);
    } else {
        proof {
            reveal_strlit("-");
            assert("-"@ =~= seq!['-']);
        }
        out.append("-");
        let mag: u64 = if v == i64::MIN {
            9223372036854775808u64
        } else {
            (-v) as u64
        };
        assert(mag as nat == (-(v as int)) as nat);
        append_u64(mag, out);
        proof {
            assert(final(out)@ =~= old(out)@ + int_text(v as int));
        }
    }
}

/// The marker line that opens one level's section of the report, preceded by
/// the line break that ends the text before it.
pub open spec fn marker_text(level: nat) -> Seq<char> {
    seq!['\n'] + dec_digits(level + 1) + seq!['.', ' ', 'l', 'e', 'v', 'e', 'l']
}

/// The report fragment of one discovered recipient: its address and value on
/// a line of their own.
pub open spec fn fragment_text(c: CandidateModel) -> Seq<char> {
    seq!['\n'] + c.addr + seq![',', ' '] + int_text(c.value as int)
}

/// The concatenated fragments of a sequence of recipients, in order.
pub open spec fn fragments_text(cs: Seq<CandidateModel>) -> Seq<char>
    decreases cs.len(),
{
    if cs.len() == 0 {
        Seq::empty()
    } else {
        fragment_text(cs[0]) + fragments_text(cs.drop_first())
    }
}

/// Appends the marker line of the level with the given index.
pub fn append_marker(level: u64, out: &mut String)
    requires
        level < u64::MAX,
    ensures
        final(out)@ == old(out)@ + marker_text(level as nat),
{
    proof {
        reveal_strlit("\n");
        assert("\n"@ =~= seq!['\n']);
        reveal_strlit(". level");
        assert(". level"@ =~= seq!['.', ' ', 'l', 'e', 'v', 'e', 'l']);
    }
    out.append("\n");
    append_u64(level + 1, out);
    out.append(". level");
    proof {
        assert(final(out)@ =~= old(out)@ + marker_text(level as nat));
    }
}

/// Appends the fragment of one recipient: its address and value.
pub fn append_fragment(addr: &String, value: i64, out: &mut String)
    ensures
        final(out)@ == old(out)@ + fragment_text(
            (CandidateModel { addr: addr@, value: value }),
        ),
{
    proof {
        reveal_strlit("\n");
        assert("\n"@ =~= seq!['\n']);
        reveal_strlit(", ");
        assert(", "@ =~= seq![',', ' ']);
    }
    out.append("\n");
    out.append(addr.as_str());
    out.append(", ");
    append_i64(value, out);
    proof {
        assert(final(out)@ =~= old(out)@ + fragment_text(
            (CandidateModel { addr: addr@, value: value }),
        ));
    }
}

/// The whole text one level contributes to the report: its marker line, then
/// the fragment of every candidate the frontier yields, in encounter order.
pub open spec fn level_text(fr: Seq<RecordModel>, cutoff: u64, level: nat) -> Seq<char> {
    marker_text(level) + fragments_text(frontier_cands(fr, cutoff))
}

/// Extending a recipient sequence by one extends its text by that
/// recipient's fragment.
pub proof fn lemma_fragments_push(cs: Seq<CandidateModel>, c: CandidateModel)
    ensures
        fragments_text(cs.push(c)) == fragments_text(cs) + fragment_text(c),
    decreases cs.len(),
{
    if cs.len() == 0 {
        assert(cs.push(c)[0] == c);
        assert(cs.push(c).drop_first() =~= cs);
        assert(fragments_text(cs.push(c)) =~= fragments_text(cs) + fragment_text(c));
    } else {
        assert(cs.push(c).drop_first() =~= cs.drop_first().push(c));
        lemma_fragments_push(cs.drop_first(), c);
        assert(cs.push(c)[0] == cs[0]);
        assert(fragments_text(cs.push(c)) =~= fragments_text(cs) + fragment_text(c));
    }
}

} // verus!
