//! Small text helpers shared by the chat wrapper, the codec and the
//! command handlers: character classes, conversions between strings and
//! character vectors, and decimal parsing and formatting.

use vstd::prelude::*;
use vstd::string::StrSliceExecFns;

verus! {

/// An ASCII hexadecimal digit.
pub open spec fn spec_is_hexdigit(c: char) -> bool {
    ('0' <= c && c <= '9') || ('a' <= c && c <= 'f') || ('A' <= c && c <= 'F')
}

pub fn is_hexdigit(c: char) -> (r: bool)
    ensures
        r == spec_is_hexdigit(c),
{
    ('0' <= c && c <= '9') || ('a' <= c && c <= 'f') || ('A' <= c && c <= 'F')
}

/// Lower-casing of the six uppercase hexadecimal letters, identity
/// elsewhere; on hexadecimal digits this agrees with Unicode lower-casing.
pub open spec fn spec_lower_hex(c: char) -> char {
    match c {
        'A' => 'a',
        'B' => 'b',
        'C' => 'c',
        'D' => 'd',
        'E' => 'e',
        'F' => 'f',
        _ => c,
    }
}

pub fn lower_hex(c: char) -> (r: char)
    ensures
        r == spec_lower_hex(c),
{
    match c {
        'A' => 'a',
        'B' => 'b',
        'C' => 'c',
        'D' => 'd',
        'E' => 'e',
        'F' => 'f',
        _ => c,
    }
}

/// Relies on String::push: appends one character at the end.
#[verifier::external_body]
pub fn push_char(s: &mut String, c: char)
    ensures
        final(s)@ == old(s)@.push(c),
{
    s.push(c);
}

/// The characters of a string, in order.
pub fn chars_to_vec(s: &str) -> (v: Vec<char>)
    ensures
        v@ == s@,
{
    let n = s.unicode_len();
    let mut v: Vec<char> = Vec::new();
    let mut i: usize = 0;
    while i < n
        invariant
            n == s@.len(),
            0 <= i <= n,
            v@ == s@.subrange(0, i as int),
        decreases n - i,
    {
        v.push(s.get_char(i));
        proof {
            assert(v@ =~= s@.subrange(0, i + 1));
        }
        i = i + 1;
    }
    proof {
        assert(s@.subrange(0, n as int) =~= s@);
    }
    v
}

/// A string holding exactly the given characters.
pub fn chars_to_string(v: &Vec<char>) -> (s: String)
    ensures
        s@ == v@,
{
    let mut s = String::new();
    let mut i: usize = 0;
    while i < v.len()
        invariant
            0 <= i <= v@.len(),
            s@ == v@.subrange(0, i as int),
        decreases v@.len() - i,
    {
        push_char(&mut s, v[i]);
        proof {
            assert(s@ =~= v@.subrange(0, i + 1));
        }
        i = i + 1;
    }
    proof {
        assert(v@.subrange(0, v@.len() as int) =~= v@);
    }
    s
}

/// The value of a run of decimal digits appended to an accumulator, or
/// nothing if a non-digit appears.
pub open spec fn spec_parse_digits(s: Seq<char>, acc: int) -> Option<int>
    decreases s.len(),
{
    if s.len() == 0 {
        Some(acc)
    } else if '0' <= s[0] && s[0] <= '9' {
        spec_parse_digits(s.drop_first(), acc * 10 + (s[0] as int - 48))
    } else {
        None
    }
}

proof fn lemma_parse_digits_monotone(s: Seq<char>, acc: int)
    requires
        acc >= 0,
        spec_parse_digits(s, acc) is Some,
    ensures
        spec_parse_digits(s, acc)->0 >= acc,
    decreases s.len(),
{
    if s.len() > 0 {
        lemma_parse_digits_monotone(s.drop_first(), acc * 10 + (s[0] as int - 48));
    }
}

/// The 16-bit value denoted by a decimal numeral with an optional sign,
/// or nothing for an empty, malformed or out-of-range numeral.
pub open spec fn spec_parse_i16(s: Seq<char>) -> Option<i16> {
    if s.len() == 0 {
        None
    } else {
        let neg = s[0] == '-';
        let rest = if s[0] == '-' || s[0] == '+' {
            s.drop_first()
        } else {
            s
        };
        if rest.len() == 0 {
            None
        } else {
            match spec_parse_digits(rest, 0) {
                Some(v) => {
                    let sv = if neg {
                        -v
                    } else {
                        v
                    };
                    if -32768 <= sv <= 32767 {
                        Some(sv as i16)
                    } else {
                        None
                    }
                },
                None => None,
            }
        }
    }
}

/// Parse a 16-bit decimal numeral, exactly as the standard library does.
#[verifier::loop_isolation(false)]
pub fn parse_i16(s: &str) -> (r: Option<i16>)
    ensures
        r == spec_parse_i16(s@),
{
    let cs = chars_to_vec(s);
    if cs.len() == 0 {
        return None;
    }
    let neg = cs[0] == '-';
    let start: usize = if cs[0] == '-' || cs[0] == '+' {
        1
    } else {
        0
    };
    proof {
        if start == 1 {
            assert(cs@.drop_first() =~= cs@.subrange(1, cs@.len() as int));
        } else {
            assert(cs@ =~= cs@.subrange(0, cs@.len() as int));
        }
    }
    if cs.len() == start {
        return None;
    }
    let ghost rest = cs@.subrange(start as int, cs@.len() as int);
    let mut acc: u32 = 0;
    let mut i: usize = start;
    while i < cs.len()
        invariant
            cs@ == s@,
            cs@.len() > start,
            start <= i <= cs@.len(),
            start == 1 <==> (s@[0] == '-' || s@[0] == '+'),
            neg == (s@[0] == '-'),
            start == 1 ==> rest == s@.drop_first(),
            start == 0 ==> rest == s@,
            rest == cs@.subrange(start as int, cs@.len() as int),
            acc <= 32768,
            spec_parse_digits(rest, 0) == spec_parse_digits(
                cs@.subrange(i as int, cs@.len() as int),
                acc as int,
            ),
        decreases cs@.len() - i,
    {
        let c = cs[i];
        if !('0' <= c && c <= '9') {
            proof {
                assert(cs@.subrange(i as int, cs@.len() as int)[0] == cs@[i as int]);
                assert(spec_parse_digits(rest, 0) is None);
            }
            return None;
        }
        let d = (c as u32) - 48;
        proof {
            assert(cs@.subrange(i as int, cs@.len() as int)[0] == cs@[i as int]);
            assert(cs@.subrange(i as int, cs@.len() as int).drop_first() =~= cs@.subrange(
                i + 1,
                cs@.len() as int,
            ));
        }
        let next = acc * 10 + d;
        if next > 32768 {
            proof {
                if spec_parse_digits(cs@.subrange(i + 1, cs@.len() as int), next as int)
                    is Some {
                    lemma_parse_digits_monotone(
                        cs@.subrange(i + 1, cs@.len() as int),
                        next as int,
                    );
                }
            }
            return None;
        }
        acc = next;
        i = i + 1;
    }
    proof {
        assert(cs@.subrange(cs@.len() as int, cs@.len() as int)
            =~= Seq::<char>::empty());
    }
    if neg {
        if acc > 32768 {
            return None;
        }
        Some((-(acc as i32)) as i16)
    } else {
        if acc > 32767 {
            return None;
        }
        Some(acc as i16)
    }
}

/// The 8-bit range of the same grammar, as the standard library's
/// unsigned parse: no minus sign is accepted.
pub open spec fn spec_parse_u8(s: Seq<char>) -> Option<u8> {
    if s.len() == 0 {
        None
    } else {
        let rest = if s[0] == '+' {
            s.drop_first()
        } else {
            s
        };
        if rest.len() == 0 || s[0] == '-' {
            None
        } else {
            match spec_parse_digits(rest, 0) {
                Some(v) => if v <= 255 {
                    Some(v as u8)
                } else {
                    None
                },
                None => None,
            }
        }
    }
}

#[verifier::loop_isolation(false)]
pub fn parse_u8(s: &str) -> (r: Option<u8>)
    ensures
        r == spec_parse_u8(s@),
{
    let cs = chars_to_vec(s);
    if cs.len() == 0 {
        return None;
    }
    if cs[0] == '-' {
        return None;
    }
    let start: usize = if cs[0] == '+' {
        1
    } else {
        0
    };
    proof {
        if start == 1 {
            assert(cs@.drop_first() =~= cs@.subrange(1, cs@.len() as int));
        } else {
            assert(cs@ =~= cs@.subrange(0, cs@.len() as int));
        }
    }
    if cs.len() == start {
        return None;
    }
    let ghost rest = cs@.subrange(start as int, cs@.len() as int);
    let mut acc: u32 = 0;
    let mut i: usize = start;
    while i < cs.len()
        invariant
            cs@ == s@,
            cs@.len() > start,
            start <= i <= cs@.len(),
            s@[0] != '-',
            start == 1 <==> s@[0] == '+',
            start == 1 ==> rest == s@.drop_first(),
            start == 0 ==> rest == s@,
            rest == cs@.subrange(start as int, cs@.len() as int),
            acc <= 256,
            spec_parse_digits(rest, 0) == spec_parse_digits(
                cs@.subrange(i as int, cs@.len() as int),
                acc as int,
            ),
        decreases cs@.len() - i,
    {
        let c = cs[i];
        if !('0' <= c && c <= '9') {
            proof {
                assert(cs@.subrange(i as int, cs@.len() as int)[0] == cs@[i as int]);
            }
            return None;
        }
        let d = (c as u32) - 48;
        proof {
            assert(cs@.subrange(i as int, cs@.len() as int)[0] == cs@[i as int]);
            assert(cs@.subrange(i as int, cs@.len() as int).drop_first() =~= cs@.subrange(
                i + 1,
                cs@.len() as int,
            ));
        }
        let next = acc * 10 + d;
        if next > 256 {
            proof {
                if spec_parse_digits(cs@.subrange(i + 1, cs@.len() as int), next as int)
                    is Some {
                    lemma_parse_digits_monotone(
                        cs@.subrange(i + 1, cs@.len() as int),
                        next as int,
                    );
                }
            }
            return None;
        }
        acc = next;
        i = i + 1;
    }
    proof {
        assert(cs@.subrange(cs@.len() as int, cs@.len() as int)
            =~= Seq::<char>::empty());
    }
    if acc > 255 {
        return None;
    }
    Some(acc as u8)
}

/// The decimal digits of a non-negative value.
pub open spec fn spec_digits(n: int) -> Seq<char>
    decreases n,
{
    if n < 10 {
        seq![((48 + if n >= 0 { n } else { 0 }) as u8) as char]
    } else {
        spec_digits(n / 10) + seq![((48 + n % 10) as u8) as char]
    }
}

fn fmt_u16(n: u16) -> (s: String)
    ensures
        s@ == spec_digits(n as int),
    decreases n,
{
    if n < 10 {
        let mut s = String::new();
        push_char(&mut s, ((48 + n) as u8) as char);
        proof {
            assert(s@ =~= spec_digits(n as int));
        }
        s
    } else {
        let mut s = fmt_u16(n / 10);
        push_char(&mut s, ((48 + n % 10) as u8) as char);
        proof {
            assert(s@ =~= spec_digits(n as int));
        }
        s
    }
}

/// The decimal numeral of a 16-bit value, sign included.
pub open spec fn spec_dec_i16(v: i16) -> Seq<char> {
    if v < 0 {
        seq!['-'] + spec_digits(-(v as int))
    } else {
        spec_digits(v as int)
    }
}

pub fn fmt_i16(v: i16) -> (s: String)
    ensures
        s@ == spec_dec_i16(v),
{
    if v < 0 {
        let mut s = String::new();
        push_char(&mut s, '-');
        let m = (-(v as i32)) as u16;
        let d = fmt_u16(m);
        s.append(d.as_str());
        proof {
            assert(s@ =~= spec_dec_i16(v));
        }
        s
    } else {
        fmt_u16(v as u16)
    }
}

/// Words joined with single spaces, in order.
pub open spec fn spec_join(s: Seq<String>) -> Seq<char>
    decreases s.len(),
{
    if s.len() == 0 {
        Seq::empty()
    } else if s.len() == 1 {
        s[0]@
    } else {
        spec_join(s.drop_last()) + seq![' '] + s.last()@
    }
}

pub fn join_spaces(args: &Vec<String>) -> (r: String)
    ensures
        r@ == spec_join(args@),
{
    let mut r = String::new();
    let mut i: usize = 0;
    while i < args.len()
        invariant
            0 <= i <= args@.len(),
            r@ == spec_join(args@.subrange(0, i as int)),
        decreases args@.len() - i,
    {
        if i > 0 {
            push_char(&mut r, ' ');
        }
        r.append(args[i].as_str());
        proof {
            let pre = args@.subrange(0, i as int);
            let now = args@.subrange(0, i + 1);
            assert(now.drop_last() =~= pre);
            assert(now.last() == args@[i as int]);
            if i == 0 {
                assert(r@ =~= now[0]@);
            } else {
                assert(r@ =~= spec_join(pre) + seq![' '] + args@[i as int]@);
            }
        }
        i = i + 1;
    }
    proof {
        assert(args@.subrange(0, args@.len() as int) =~= args@);
    }
    r
}

} // verus!
