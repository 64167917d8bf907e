//! Text for people: numbers in decimal and hexadecimal, addresses in the
//! notation of their family, and bytes read as UTF-8.

use vstd::prelude::*;
use vstd::string::StringExecFns;
use vstd::utf8::{decode_utf8, valid_utf8};

verus! {

/// The character of a decimal digit.
pub open spec fn digit_char(d: int) -> char {
    if d == 0 {
        '0'
    } else if d == 1 {
        '1'
    } else if d == 2 {
        '2'
    } else if d == 3 {
        '3'
    } else if d == 4 {
        '4'
    } else if d == 5 {
        '5'
    } else if d == 6 {
        '6'
    } else if d == 7 {
        '7'
    } else if d == 8 {
        '8'
    } else {
        '9'
    }
}

/// The decimal digits of `v`, most significant first, without leading
/// zeros; one zero for zero.
pub open spec fn decimal(v: nat) -> Seq<char>
    decreases v,
{
    if v < 10 {
        seq![digit_char(v as int)]
    } else {
        decimal(v / 10).push(digit_char((v % 10) as int))
    }
}

/// The text of one decimal digit.
fn digit_str(d: u8) -> (r: &'static str)
    requires
        d < 10,
    ensures
        r@ == seq![digit_char(d as int)],
{
    proof {
        reveal_strlit("0");
        reveal_strlit("1");
        reveal_strlit("2");
        reveal_strlit("3");
        reveal_strlit("4");
        reveal_strlit("5");
        reveal_strlit("6");
        reveal_strlit("7");
        reveal_strlit("8");
        reveal_strlit("9");
    }
    let r = if d == 0 {
        "0"
    } else if d == 1 {
        "1"
    } else if d == 2 {
        "2"
    } else if d == 3 {
        "3"
    } else if d == 4 {
        "4"
    } else if d == 5 {
        "5"
    } else if d == 6 {
        "6"
    } else if d == 7 {
        "7"
    } else if d == 8 {
        "8"
    } else {
        "9"
    };
    assert(r@ =~= seq![digit_char(d as int)]);
    r
}

/// Appends the decimal digits of `v` to `out`.
pub fn push_decimal(out: &mut String, v: u32)
    ensures
        final(out)@ == old(out)@ + decimal(v as nat),
    decreases v,
{
    if v >= 10 {
        push_decimal(out, v / 10);
    }
    out.append(digit_str((v % 10) as u8));
    assert(out@ =~= old(out)@ + decimal(v as nat));
}

/// The character of a hexadecimal digit, in lower case.
pub open spec fn hex_char(d: int) -> char {
    if d < 10 {
        digit_char(d)
    } else if d == 10 {
        'a'
    } else if d == 11 {
        'b'
    } else if d == 12 {
        'c'
    } else if d == 13 {
        'd'
    } else if d == 14 {
        'e'
    } else {
        'f'
    }
}

/// The hexadecimal digits of `v` in lower case, most significant first,
/// without leading zeros; one zero for zero.
pub open spec fn hexadecimal(v: nat) -> Seq<char>
    decreases v,
{
    if v < 16 {
        seq![hex_char(v as int)]
    } else {
        hexadecimal(v / 16).push(hex_char((v % 16) as int))
    }
}

/// The text of one hexadecimal digit.
fn hex_str(d: u8) -> (r: &'static str)
    requires
        d < 16,
    ensures
        r@ == seq![hex_char(d as int)],
{
    if d < 10 {
        return digit_str(d);
    }
    proof {
        reveal_strlit("a");
        reveal_strlit("b");
        reveal_strlit("c");
        reveal_strlit("d");
        reveal_strlit("e");
        reveal_strlit("f");
    }
    let r = if d == 10 {
        "a"
    } else if d == 11 {
        "b"
    } else if d == 12 {
        "c"
    } else if d == 13 {
        "d"
    } else if d == 14 {
        "e"
    } else {
        "f"
    };
    assert(r@ =~= seq![hex_char(d as int)]);
    r
}

/// Appends the hexadecimal digits of `v` to `out`.
pub fn push_hexadecimal(out: &mut String, v: u16)
    ensures
        final(out)@ == old(out)@ + hexadecimal(v as nat),
    decreases v,
{
    if v >= 16 {
        push_hexadecimal(out, v / 16);
    }
    out.append(hex_str((v % 16) as u8));
    assert(out@ =~= old(out)@ + hexadecimal(v as nat));
}

/// An IPv4 address in dotted decimal: its first four octets in decimal,
/// with a dot between them.
pub open spec fn dotted(octets: Seq<u8>) -> Seq<char>
    recommends
        octets.len() >= 4,
{
    decimal(octets[0] as nat) + seq!['.'] + decimal(octets[1] as nat) + seq!['.'] + decimal(
        octets[2] as nat,
    ) + seq!['.'] + decimal(octets[3] as nat)
}

/// Appends an IPv4 address in dotted decimal to `out`.
pub fn push_dotted(out: &mut String, octets: &[u8])
    requires
        octets@.len() >= 4,
    ensures
        final(out)@ == old(out)@ + dotted(octets@),
{
    proof {
        reveal_strlit(".");
    }
    push_decimal(out, octets[0] as u32);
    out.append(".");
    push_decimal(out, octets[1] as u32);
    out.append(".");
    push_decimal(out, octets[2] as u32);
    out.append(".");
    push_decimal(out, octets[3] as u32);
    assert(out@ =~= old(out)@ + dotted(octets@));
}

/// The 16-bit group of an IPv6 address at place `i`, of sixteen octets.
pub open spec fn group(octets: Seq<u8>, i: int) -> u16
    recommends
        octets.len() >= 16,
        0 <= i < 8,
{
    (octets[2 * i] as int * 0x100 + octets[2 * i + 1] as int) as u16
}

/// The longest run of zero groups among the groups from `i` on, as its
/// start and its length, where `longest` is the longest run before `i`
/// and `current` the run that reaches `i`. Of runs of one length the
/// first is kept.
pub open spec fn zero_run_from(octets: Seq<u8>, i: int, longest: (int, int), current: (int, int)) -> (
    int,
    int,
)
    decreases 8 - i,
{
    if i < 0 || i >= 8 {
        longest
    } else if group(octets, i) == 0 {
        let run = (
            if current.1 == 0 {
                i
            } else {
                current.0
            },
            current.1 + 1,
        );
        zero_run_from(
            octets,
            i + 1,
            if run.1 > longest.1 {
                run
            } else {
                longest
            },
            run,
        )
    } else {
        zero_run_from(octets, i + 1, longest, (0, 0))
    }
}

/// The groups from `i` up to `end` in hexadecimal, after `acc`, with a
/// colon between them.
pub open spec fn groups_from(octets: Seq<u8>, start: int, i: int, end: int, acc: Seq<char>) -> Seq<
    char,
>
    decreases end - i,
{
    if i < start || i >= end {
        acc
    } else if i == start {
        groups_from(octets, start, i + 1, end, acc + hexadecimal(group(octets, i) as nat))
    } else {
        groups_from(
            octets,
            start,
            i + 1,
            end,
            acc + seq![':'] + hexadecimal(group(octets, i) as nat),
        )
    }
}

/// Whether sixteen octets hold an IPv4 address mapped into IPv6: five
/// zero groups, then a group of ones.
pub open spec fn is_ipv4_mapped(octets: Seq<u8>) -> bool {
    group(octets, 0) == 0 && group(octets, 1) == 0 && group(octets, 2) == 0 && group(octets, 3)
        == 0 && group(octets, 4) == 0 && group(octets, 5) == 0xffff
}

/// An IPv6 address in its canonical text: the groups in hexadecimal
/// without leading zeros, and two colons in the place of the longest run
/// of two or more zero groups. A mapped IPv4 address is written in dotted
/// decimal after `::ffff:`.
pub open spec fn canonical_v6(octets: Seq<u8>) -> Seq<char>
    recommends
        octets.len() >= 16,
{
    if is_ipv4_mapped(octets) {
        seq![':', ':', 'f', 'f', 'f', 'f', ':'] + dotted(octets.subrange(12, 16))
    } else {
        let run = zero_run_from(octets, 0, (0, 0), (0, 0));
        if run.1 > 1 {
            groups_from(
                octets,
                run.0 + run.1,
                run.0 + run.1,
                8,
                groups_from(octets, 0, 0, run.0, Seq::empty()) + seq![':', ':'],
            )
        } else {
            groups_from(octets, 0, 0, 8, Seq::empty())
        }
    }
}

/// The 16-bit group of an IPv6 address at place `i`.
fn group_at(octets: &[u8], i: usize) -> (r: u16)
    requires
        octets@.len() >= 16,
        i < 8,
    ensures
        r == group(octets@, i as int),
{
    (octets[2 * i] as u16) * 0x100 + octets[2 * i + 1] as u16
}

/// Appends the groups from `start` up to `end` to `out`.
fn push_groups(out: &mut String, octets: &[u8], start: usize, end: usize)
    requires
        octets@.len() >= 16,
        start <= end <= 8,
    ensures
        final(out)@ == groups_from(octets@, start as int, start as int, end as int, old(out)@),
{
    proof {
        reveal_strlit(":");
    }
    let mut i: usize = start;
    while i < end
        invariant
            octets@.len() >= 16,
            start <= i <= end <= 8,
            groups_from(octets@, start as int, start as int, end as int, old(out)@) == groups_from(
                octets@,
                start as int,
                i as int,
                end as int,
                out@,
            ),
        decreases end - i,
    {
        let ghost before = out@;
        if i != start {
            proof {
                reveal_strlit(":");
            }
            out.append(":");
            assert(out@ =~= before + seq![':']);
        }
        push_hexadecimal(out, group_at(octets, i));
        i = i + 1;
    }
}

/// Appends an IPv6 address in its canonical text to `out`.
pub fn push_canonical_v6(out: &mut String, octets: &[u8])
    requires
        octets@.len() >= 16,
    ensures
        final(out)@ == old(out)@ + canonical_v6(octets@),
{
    if group_at(octets, 0) == 0 && group_at(octets, 1) == 0 && group_at(octets, 2) == 0
        && group_at(octets, 3) == 0 && group_at(octets, 4) == 0 && group_at(octets, 5)
        == 0xffff {
        proof {
            reveal_strlit("::ffff:");
        }
        out.append("::ffff:");
        push_dotted(out, vstd::slice::slice_subrange(octets, 12, 16));
        assert(out@ =~= old(out)@ + canonical_v6(octets@));
        return ;
    }
    let mut longest: (usize, usize) = (0, 0);
    let mut current: (usize, usize) = (0, 0);
    let mut i: usize = 0;
    while i < 8
        invariant
            octets@.len() >= 16,
            i <= 8,
            current.1 <= i,
            longest.1 <= i,
            current.1 == 0 || current.0 + current.1 == i,
            longest.0 + longest.1 <= i,
            zero_run_from(octets@, 0, (0, 0), (0, 0)) == zero_run_from(
                octets@,
                i as int,
                (longest.0 as int, longest.1 as int),
                (current.0 as int, current.1 as int),
            ),
        decreases 8 - i,
    {
        if group_at(octets, i) == 0 {
            if current.1 == 0 {
                current = (i, 1);
            } else {
                current = (current.0, current.1 + 1);
            }
            if current.1 > longest.1 {
                longest = current;
            }
        } else {
            current = (0, 0);
        }
        i = i + 1;
    }
    let ghost run = zero_run_from(octets@, 0, (0, 0), (0, 0));
    assert(run == (longest.0 as int, longest.1 as int));
    let mut text = String::new();
    assert(text@ =~= Seq::<char>::empty());
    if longest.1 > 1 {
        proof {
            reveal_strlit("::");
        }
        push_groups(&mut text, octets, 0, longest.0);
        let ghost head = text@;
        text.append("::");
        assert(text@ =~= head + seq![':', ':']);
        push_groups(&mut text, octets, longest.0 + longest.1, 8);
    } else {
        push_groups(&mut text, octets, 0, 8);
    }
    assert(text@ == canonical_v6(octets@));
    out.append(text.as_str());
}

/// `String::from_utf8` of the standard library: the text that the bytes
/// encode where they are well-formed UTF-8, and nothing where they are
/// not.
#[verifier::external_body]
pub(crate) fn string_from_utf8(bytes: Vec<u8>) -> (r: Option<String>)
    ensures
        match r {
            Some(s) => valid_utf8(bytes@) && s@ == decode_utf8(bytes@),
            None => !valid_utf8(bytes@),
        },
{
    String::from_utf8(bytes).ok()
}

} // verus!
