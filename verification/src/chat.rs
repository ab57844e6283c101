//! Word-wrapping of color-coded chat into lines of at most 64 rendered
//! characters, with color state carried across line breaks.

use vstd::prelude::*;
use crate::strutil::{spec_is_hexdigit, is_hexdigit, lower_hex, chars_to_vec, chars_to_string};

verus! {

/// Every ampersand starts a color code: it is followed, inside the text,
/// by a hexadecimal digit.
pub open spec fn no_stray_amp(s: Seq<char>) -> bool {
    forall|i: int|
        0 <= i < s.len() && #[trigger] s[i] == '&' ==> i + 1 < s.len() && spec_is_hexdigit(
            s[i + 1],
        )
}

pub open spec fn has_no_newline(s: Seq<char>) -> bool {
    forall|i: int| 0 <= i < s.len() ==> #[trigger] s[i] != '\n'
}

/// The visible text from position `j` on: color codes, spaces and line
/// breaks are dropped, everything else is kept in order.
pub open spec fn strip_from(s: Seq<char>, j: int) -> Seq<char>
    decreases s.len() - j,
{
    if j < 0 || j >= s.len() {
        Seq::empty()
    } else if s[j] == '&' && j + 1 < s.len() && spec_is_hexdigit(s[j + 1]) {
        strip_from(s, j + 2)
    } else if s[j] == ' ' || s[j] == '\n' {
        strip_from(s, j + 1)
    } else {
        seq![s[j]] + strip_from(s, j + 1)
    }
}

/// The visible text of a whole sequence.
pub open spec fn strip(s: Seq<char>) -> Seq<char> {
    strip_from(s, 0)
}

/// The visible text of a list of lines, concatenated.
pub open spec fn strip_all(ls: Seq<String>) -> Seq<char>
    decreases ls.len(),
{
    if ls.len() == 0 {
        Seq::empty()
    } else {
        strip(ls[0]@) + strip_all(ls.drop_first())
    }
}

pub proof fn lemma_strip_all_snoc(ls: Seq<String>, s: String)
    ensures
        strip_all(ls.push(s)) == strip_all(ls) + strip(s@),
    decreases ls.len(),
{
    if ls.len() == 0 {
        assert(ls.push(s)[0] == s);
        assert(ls.push(s).drop_first() =~= Seq::<String>::empty());
        assert(strip_all(ls) + strip(s@) =~= strip(s@));
        assert(strip(s@) + strip_all(Seq::<String>::empty()) =~= strip(s@));
    } else {
        assert(ls.push(s)[0] == ls[0]);
        assert(ls.push(s).drop_first() =~= ls.drop_first().push(s));
        lemma_strip_all_snoc(ls.drop_first(), s);
        assert(strip(ls[0]@) + (strip_all(ls.drop_first()) + strip(s@)) =~= (strip(ls[0]@)
            + strip_all(ls.drop_first())) + strip(s@));
    }
}

proof fn lemma_strip_from_push(l: Seq<char>, c: char, j: int)
    requires
        no_stray_amp(l),
        c != '&',
        0 <= j <= l.len(),
    ensures
        strip_from(l.push(c), j) == strip_from(l, j) + if c == ' ' || c == '\n' {
            Seq::<char>::empty()
        } else {
            seq![c]
        },
    decreases l.len() - j,
{
    let l2 = l.push(c);
    if j == l.len() {
        assert(l2[j] == c);
        assert(strip_from(l2, j + 1) =~= Seq::<char>::empty());
        if c == ' ' || c == '\n' {
            assert(strip_from(l, j) + Seq::<char>::empty() =~= strip_from(l, j));
        } else {
            assert(strip_from(l, j) + seq![c] =~= seq![c]);
        }
    } else {
        assert(l2[j] == l[j]);
        if l[j] == '&' {
            assert(j + 1 < l.len() && spec_is_hexdigit(l[j + 1]));
            assert(l2[j + 1] == l[j + 1]);
            lemma_strip_from_push(l, c, j + 2);
        } else if l[j] == ' ' || l[j] == '\n' {
            lemma_strip_from_push(l, c, j + 1);
        } else {
            lemma_strip_from_push(l, c, j + 1);
            assert(seq![l[j]] + (strip_from(l, j + 1) + if c == ' ' || c == '\n' {
                Seq::<char>::empty()
            } else {
                seq![c]
            }) =~= (seq![l[j]] + strip_from(l, j + 1)) + if c == ' ' || c == '\n' {
                Seq::<char>::empty()
            } else {
                seq![c]
            });
        }
    }
}

/// Pushing one non-ampersand character extends the visible text by that
/// character, or by nothing for a space or a line break.
pub proof fn lemma_strip_push(l: Seq<char>, c: char)
    requires
        no_stray_amp(l),
        c != '&',
    ensures
        strip(l.push(c)) == strip(l) + if c == ' ' || c == '\n' {
            Seq::<char>::empty()
        } else {
            seq![c]
        },
        no_stray_amp(l.push(c)),
{
    lemma_strip_from_push(l, c, 0);
    assert forall|i: int|
        0 <= i < l.push(c).len() && #[trigger] l.push(c)[i] == '&' implies i + 1 < l.push(
        c,
    ).len() && spec_is_hexdigit(l.push(c)[i + 1]) by {
        assert(l.push(c)[i] == l[i]);
    }
}

proof fn lemma_strip_from_push_code(l: Seq<char>, x: char, j: int)
    requires
        no_stray_amp(l),
        spec_is_hexdigit(x),
        0 <= j <= l.len(),
    ensures
        strip_from(l.push('&').push(x), j) == strip_from(l, j),
    decreases l.len() - j,
{
    let l2 = l.push('&').push(x);
    assert(l2.len() == l.len() + 2);
    if j == l.len() {
        assert(l2[j] == '&');
        assert(l2[j + 1] == x);
        assert(strip_from(l2, j + 2) =~= Seq::<char>::empty());
    } else {
        assert(l2[j] == l[j]);
        if l[j] == '&' {
            assert(j + 1 < l.len() && spec_is_hexdigit(l[j + 1]));
            assert(l2[j + 1] == l[j + 1]);
            lemma_strip_from_push_code(l, x, j + 2);
        } else if l[j] == ' ' || l[j] == '\n' {
            lemma_strip_from_push_code(l, x, j + 1);
        } else {
            lemma_strip_from_push_code(l, x, j + 1);
        }
    }
}

/// Pushing a color code leaves the visible text unchanged.
pub proof fn lemma_strip_push_code(l: Seq<char>, x: char)
    requires
        no_stray_amp(l),
        spec_is_hexdigit(x),
        x != '&',
    ensures
        strip(l.push('&').push(x)) == strip(l),
        no_stray_amp(l.push('&').push(x)),
{
    lemma_strip_from_push_code(l, x, 0);
    let l2 = l.push('&').push(x);
    assert forall|i: int|
        0 <= i < l2.len() && #[trigger] l2[i] == '&' implies i + 1 < l2.len() && spec_is_hexdigit(
        l2[i + 1],
    ) by {
        if i < l.len() {
            assert(l2[i] == l[i]);
            if l[i] == '&' {
                assert(l2[i + 1] == l[i + 1]);
            }
        } else if i == l.len() {
            assert(l2[i + 1] == x);
        } else {
            assert(l2[i] == x);
        }
    }
}

/// The text with color codes and line breaks dropped but spaces kept.
pub open spec fn strip_keep_from(s: Seq<char>, j: int) -> Seq<char>
    decreases s.len() - j,
{
    if j < 0 || j >= s.len() {
        Seq::empty()
    } else if s[j] == '&' && j + 1 < s.len() && spec_is_hexdigit(s[j + 1]) {
        strip_keep_from(s, j + 2)
    } else if s[j] == '\n' {
        strip_keep_from(s, j + 1)
    } else {
        seq![s[j]] + strip_keep_from(s, j + 1)
    }
}

pub open spec fn strip_keep(s: Seq<char>) -> Seq<char> {
    strip_keep_from(s, 0)
}

/// A run of `n` spaces.
pub open spec fn spec_spaces(n: int) -> Seq<char> {
    Seq::new(if n >= 0 {
        n as nat
    } else {
        0nat
    }, |i: int| ' ')
}

pub open spec fn all_spaces(s: Seq<char>) -> bool {
    forall|i: int| 0 <= i < s.len() ==> s[i] == ' '
}

/// The visible lines joined back with the separator dropped at each wrap
/// point put back between them.
pub open spec fn spec_seamed(ls: Seq<String>, seps: Seq<Seq<char>>) -> Seq<char>
    decreases ls.len(),
{
    if ls.len() == 0 {
        Seq::empty()
    } else if ls.len() == 1 {
        strip_keep(ls[0]@)
    } else {
        spec_seamed(ls.drop_last(), seps.drop_last()) + seps.last() + strip_keep(ls.last()@)
    }
}

proof fn lemma_strip_keep_from_push(l: Seq<char>, c: char, j: int)
    requires
        no_stray_amp(l),
        c != '&',
        0 <= j <= l.len(),
    ensures
        strip_keep_from(l.push(c), j) == strip_keep_from(l, j) + if c == '\n' {
            Seq::<char>::empty()
        } else {
            seq![c]
        },
    decreases l.len() - j,
{
    let l2 = l.push(c);
    if j == l.len() {
        assert(l2[j] == c);
        assert(strip_keep_from(l2, j + 1) =~= Seq::<char>::empty());
        if c == '\n' {
            assert(strip_keep_from(l, j) + Seq::<char>::empty() =~= strip_keep_from(l, j));
        } else {
            assert(strip_keep_from(l, j) + seq![c] =~= seq![c]);
        }
    } else {
        assert(l2[j] == l[j]);
        if l[j] == '&' {
            assert(j + 1 < l.len() && spec_is_hexdigit(l[j + 1]));
            assert(l2[j + 1] == l[j + 1]);
            lemma_strip_keep_from_push(l, c, j + 2);
        } else if l[j] == '\n' {
            lemma_strip_keep_from_push(l, c, j + 1);
        } else {
            lemma_strip_keep_from_push(l, c, j + 1);
            assert(seq![l[j]] + (strip_keep_from(l, j + 1) + if c == '\n' {
                Seq::<char>::empty()
            } else {
                seq![c]
            }) =~= (seq![l[j]] + strip_keep_from(l, j + 1)) + if c == '\n' {
                Seq::<char>::empty()
            } else {
                seq![c]
            });
        }
    }
}

/// Pushing one non-ampersand character extends the kept text by that
/// character, or by nothing for a line break.
pub proof fn lemma_strip_keep_push(l: Seq<char>, c: char)
    requires
        no_stray_amp(l),
        c != '&',
    ensures
        strip_keep(l.push(c)) == strip_keep(l) + if c == '\n' {
            Seq::<char>::empty()
        } else {
            seq![c]
        },
{
    lemma_strip_keep_from_push(l, c, 0);
}

proof fn lemma_strip_keep_from_push_code(l: Seq<char>, x: char, j: int)
    requires
        no_stray_amp(l),
        spec_is_hexdigit(x),
        0 <= j <= l.len(),
    ensures
        strip_keep_from(l.push('&').push(x), j) == strip_keep_from(l, j),
    decreases l.len() - j,
{
    let l2 = l.push('&').push(x);
    assert(l2.len() == l.len() + 2);
    if j == l.len() {
        assert(l2[j] == '&');
        assert(l2[j + 1] == x);
        assert(strip_keep_from(l2, j + 2) =~= Seq::<char>::empty());
    } else {
        assert(l2[j] == l[j]);
        if l[j] == '&' {
            assert(j + 1 < l.len() && spec_is_hexdigit(l[j + 1]));
            assert(l2[j + 1] == l[j + 1]);
            lemma_strip_keep_from_push_code(l, x, j + 2);
        } else if l[j] == '\n' {
            lemma_strip_keep_from_push_code(l, x, j + 1);
        } else {
            lemma_strip_keep_from_push_code(l, x, j + 1);
        }
    }
}

/// Pushing a color code leaves the kept text unchanged.
pub proof fn lemma_strip_keep_push_code(l: Seq<char>, x: char)
    requires
        no_stray_amp(l),
        spec_is_hexdigit(x),
        x != '&',
    ensures
        strip_keep(l.push('&').push(x)) == strip_keep(l),
{
    lemma_strip_keep_from_push_code(l, x, 0);
}

/// A message fit for exact wrapping: no line breaks, and every ampersand
/// starts a color code.
pub open spec fn wrap_clean_input(s: Seq<char>) -> bool {
    has_no_newline(s) && no_stray_amp(s)
}

/// Wrap a color-coded message into lines of at most 64 rendered
/// characters. Line breaks flush the line; color codes are re-emitted
/// after a wrap so color carries over; the wrap point is the last space
/// when there is one. For a message without line breaks whose ampersands
/// all start color codes, the visible text of the output, read across
/// lines, is exactly the visible text of the message.
#[verifier::rlimit(100)]
pub fn wrap_and_clean(message: &str, default_mode: char) -> (r: Vec<String>)
    requires
        spec_is_hexdigit(default_mode),
        message@.len() < 0x1000_0000,
    ensures
        forall|k: int| 0 <= k < r@.len() ==> (#[trigger] r@[k])@.len() <= 64,
        forall|k: int| 0 <= k < r@.len() ==> has_no_newline((#[trigger] r@[k])@),
        wrap_clean_input(message@) ==> forall|k: int|
            0 <= k < r@.len() ==> no_stray_amp((#[trigger] r@[k])@),
        wrap_clean_input(message@) ==> strip_all(r@) == strip(message@),
        wrap_clean_input(message@) ==> exists|seps: Seq<Seq<char>>, trailing: Seq<char>|
            {
                &&& seps.len() == (if r@.len() == 0 {
                    0int
                } else {
                    r@.len() - 1
                })
                &&& (forall|k: int| 0 <= k < seps.len() ==> all_spaces(#[trigger] seps[k]))
                &&& all_spaces(trailing)
                &&& strip_keep(message@) == #[trigger] (spec_seamed(r@, seps) + trailing)
            },
{
    let cs = chars_to_vec(message);
    let n = cs.len();
    let ghost msg = message@;
    let ghost hh = wrap_clean_input(message@);
    let mut output: Vec<String> = Vec::new();
    let mut mode = default_mode;
    let mut new_mode: Option<char> = None;
    let mut spaces: usize = 0;
    let mut i: usize = 0;
    let mut split_at: Option<(usize, char, Option<char>, usize)> = None;
    let mut new_len: usize = 0;
    let mut line: Vec<char> = Vec::new();
    let ghost mut floor: int = 0;
    let ghost mut seps: Seq<Seq<char>> = Seq::empty();
    let ghost mut pending: Seq<char> = Seq::empty();
    let ghost mut split_sp: int = 0;
    let ghost mut next_pending: Seq<char> = Seq::empty();
    while i < n
        invariant
            cs@ == msg,
            n == msg.len(),
            msg.len() < 0x1000_0000,
            hh == wrap_clean_input(msg),
            spec_is_hexdigit(default_mode),
            0 <= i <= n,
            spaces <= i,
            spaces > 0 ==> split_at is Some,
            0 <= floor <= i,
            line@.len() <= new_len,
            new_len <= 64,
            spec_is_hexdigit(mode),
            new_mode matches Some(c) ==> spec_is_hexdigit(c) && c != '&',
            has_no_newline(line@),
            forall|k: int| 0 <= k < output@.len() ==> (#[trigger] output@[k])@.len() <= 64,
            forall|k: int| 0 <= k < output@.len() ==> has_no_newline((#[trigger] output@[k])@),
            hh ==> forall|k: int| 0 <= k < output@.len() ==> no_stray_amp((#[trigger] output@[k])@),
            hh ==> no_stray_amp(line@),
            hh ==> strip_all(output@) + strip(line@) + strip_from(msg, i as int) == strip(msg),
            hh ==> seps.len() == (if output@.len() == 0 {
                0int
            } else {
                output@.len() - 1
            }),
            hh ==> (forall|k: int| 0 <= k < seps.len() ==> all_spaces(#[trigger] seps[k])),
            hh ==> all_spaces(pending),
            hh ==> (output@.len() == 0 ==> pending == Seq::<char>::empty()),
            hh ==> spec_seamed(output@, seps) + pending + strip_keep(line@) + spec_spaces(
                spaces as int,
            ) + strip_keep_from(msg, i as int) == strip_keep(msg),
            split_at matches Some((ni, m, nm, nlen)) ==> {
                &&& floor <= ni < i
                &&& ni < n
                &&& msg[ni as int] == ' '
                &&& spec_is_hexdigit(m)
                &&& (nm matches Some(c) ==> spec_is_hexdigit(c) && c != '&')
                &&& split_sp >= 0
                &&& (hh ==> {
                    &&& nlen <= line@.len()
                    &&& no_stray_amp(line@.subrange(0, nlen as int))
                    &&& strip_all(output@) + strip(line@.subrange(0, nlen as int)) + strip_from(
                        msg,
                        ni + 1,
                    ) == strip(msg)
                    &&& spec_seamed(output@, seps) + pending + strip_keep(
                        line@.subrange(0, nlen as int),
                    ) + spec_spaces(split_sp) + seq![' '] + strip_keep_from(msg, ni + 1)
                        == strip_keep(msg)
                })
            },
        decreases n - floor, n - i, new_len,
    {
        let c = cs[i];
        if c == '\n' {
            proof {
                assert(msg[i as int] == '\n');
                assert(!hh);
            }
            spaces = 0;
            output.push(chars_to_string(&line));
            line = Vec::new();
            if new_mode.is_none() {
                new_mode = Some(mode);
            }
            mode = default_mode;
            new_len = 0;
            i = i + 1;
        } else if c == ' ' {
            proof {
                split_sp = spaces as int;
                if hh {
                    assert(strip_from(msg, i as int) == strip_from(msg, i + 1));
                    assert(line@.subrange(0, line@.len() as int) =~= line@);
                    assert(strip_keep_from(msg, i as int) == seq![' '] + strip_keep_from(
                        msg,
                        i + 1,
                    ));
                    assert(spec_seamed(output@, seps) + pending + strip_keep(line@) + spec_spaces(
                        spaces as int,
                    ) + seq![' '] + strip_keep_from(msg, i + 1) =~= spec_seamed(output@, seps)
                        + pending + strip_keep(line@) + spec_spaces(spaces as int) + (seq![' ']
                        + strip_keep_from(msg, i + 1)));
                    assert(spec_spaces(spaces as int).push(' ') =~= spec_spaces(spaces + 1));
                    assert(spec_seamed(output@, seps) + pending + strip_keep(line@) + spec_spaces(
                        spaces + 1,
                    ) + strip_keep_from(msg, i + 1) =~= spec_seamed(output@, seps) + pending
                        + strip_keep(line@) + spec_spaces(spaces as int) + seq![' ']
                        + strip_keep_from(msg, i + 1));
                }
            }
            split_at = Some((i, mode, new_mode, line.len()));
            spaces = spaces + 1;
            i = i + 1;
        } else {
            if c == '&' && i + 1 < n && is_hexdigit(cs[i + 1]) {
                let x = lower_hex(cs[i + 1]);
                proof {
                    assert(spec_is_hexdigit(x) && x != '&');
                    if hh {
                        assert(strip_from(msg, i as int) == strip_from(msg, i + 2));
                        assert(strip_keep_from(msg, i as int) == strip_keep_from(msg, i + 2));
                    }
                }
                new_mode = Some(x);
                i = i + 2;
                continue;
            }
            proof {
                if hh && c == '&' {
                    assert(msg[i as int] == '&');
                    assert(i + 1 < n && spec_is_hexdigit(msg[i + 1]));
                    assert(false);
                }
            }
            let ghost line_head = line@;
            let pending_differs = match new_mode {
                Some(pc) => pc != mode,
                None => false,
            };
            new_len = new_len + 1 + spaces + if pending_differs {
                2
            } else {
                0
            };
            if new_len > 64 {
                match split_at {
                    Some((ni, nmode, nnew_mode, nlen)) => {
                        i = ni + 1;
                        mode = nmode;
                        new_mode = nnew_mode;
                        let ghost pre_line = line@;
                        line.truncate(nlen);
                        proof {
                            floor = ni + 1;
                            next_pending = spec_spaces(split_sp) + seq![' '];
                            if hh {
                                assert(line@ == pre_line.subrange(0, nlen as int));
                                assert(spec_seamed(output@, seps) + pending + strip_keep(line@)
                                    + spec_spaces(split_sp) + seq![' '] + strip_keep_from(
                                    msg,
                                    i as int,
                                ) == strip_keep(msg));
                            }
                        }
                        split_at = None;
                    },
                    None => {
                        proof {
                            next_pending = Seq::empty();
                            if hh {
                                assert(line@.subrange(0, line@.len() as int) =~= line@);
                            }
                        }
                    },
                }
                let ghost flushed = line@;
                let ghost out0 = output@;
                let ghost seps0 = seps;
                let ghost pending0 = pending;
                let s = chars_to_string(&line);
                proof {
                    lemma_strip_all_snoc(output@, s);
                }
                output.push(s);
                proof {
                    if out0.len() > 0 {
                        seps = seps0.push(pending0);
                    }
                    pending = next_pending;
                    if hh {
                        if out0.len() == 0 {
                            assert(output@.len() == 1);
                            assert(spec_seamed(output@, seps) == strip_keep(output@[0]@));
                            assert(spec_seamed(output@, seps) =~= spec_seamed(out0, seps0)
                                + pending0 + strip_keep(flushed));
                        } else {
                            assert(output@.drop_last() =~= out0);
                            assert(seps.drop_last() =~= seps0);
                            assert(seps.last() == pending0);
                            assert(output@.last()@ == flushed);
                            assert(spec_seamed(output@, seps) =~= spec_seamed(out0, seps0)
                                + pending0 + strip_keep(flushed));
                        }
                        assert(forall|j: int|
                            0 <= j < next_pending.len() ==> #[trigger] next_pending[j] == ' ');
                    }
                }
                line = Vec::new();
                spaces = 0;
                if new_mode.is_none() {
                    new_mode = Some(mode);
                }
                mode = default_mode;
                let still_differs = match new_mode {
                    Some(pc) => pc != mode,
                    None => false,
                };
                new_len = if still_differs {
                    3
                } else {
                    1
                };
                proof {
                    if hh {
                        assert(strip(Seq::<char>::empty()) =~= Seq::<char>::empty());
                        assert(strip_all(output@) + strip(line@) + strip_from(msg, i as int)
                            == strip(msg));
                        assert(strip_keep(Seq::<char>::empty()) =~= Seq::<char>::empty());
                        assert(spec_spaces(0) =~= Seq::<char>::empty());
                        assert(spec_seamed(output@, seps) + pending + strip_keep(line@)
                            + spec_spaces(spaces as int) + strip_keep_from(msg, i as int)
                            =~= (spec_seamed(out0, seps0) + pending0 + strip_keep(flushed))
                            + pending + strip_keep_from(msg, i as int));
                    }
                }
                continue;
            } else {
                if spaces > 0 {
                    let ghost line0 = line@;
                    let mut k: usize = 0;
                    let target = spaces;
                    while k < target
                        invariant
                            hh == wrap_clean_input(msg),
                            0 <= k <= target,
                            line@.len() == line0.len() + k,
                            forall|j: int| 0 <= j < line0.len() ==> #[trigger] line@[j] == line0[j],
                            hh ==> no_stray_amp(line@),
                            hh ==> strip(line@) == strip(line0),
                            hh ==> strip_keep(line@) == strip_keep(line0) + spec_spaces(k as int),
                            has_no_newline(line@),
                        decreases target - k,
                    {
                        proof {
                            if hh {
                                lemma_strip_push(line@, ' ');
                                lemma_strip_keep_push(line@, ' ');
                                assert((strip_keep(line0) + spec_spaces(k as int)).push(' ')
                                    =~= strip_keep(line0) + spec_spaces(k + 1));
                            }
                        }
                        line.push(' ');
                        k = k + 1;
                    }
                    proof {
                        if hh {
                            assert(spec_seamed(output@, seps) + pending + strip_keep(line@)
                                + spec_spaces(0) + strip_keep_from(msg, i as int)
                                =~= spec_seamed(output@, seps) + pending + (strip_keep(line0)
                                + spec_spaces(spaces as int)) + strip_keep_from(msg, i as int));
                        }
                    }
                    spaces = 0;
                }
            }
            match new_mode {
                Some(pc) => {
                    if pc != mode {
                        mode = pc;
                        proof {
                            if hh {
                                lemma_strip_push_code(line@, pc);
                                lemma_strip_keep_push_code(line@, pc);
                            }
                        }
                        line.push('&');
                        line.push(pc);
                    }
                    new_mode = None;
                },
                None => {},
            }
            proof {
                if hh {
                    lemma_strip_push(line@, c);
                    lemma_strip_keep_push(line@, c);
                    assert(strip_from(msg, i as int) == seq![msg[i as int]] + strip_from(
                        msg,
                        i + 1,
                    ));
                    assert(strip_keep_from(msg, i as int) == seq![msg[i as int]]
                        + strip_keep_from(msg, i + 1));
                }
            }
            line.push(c);
            proof {
                if hh {
                    match split_at {
                        Some((ni, m, nm, nlen)) => {
                            assert(line@.subrange(0, nlen as int) =~= line_head.subrange(
                                0,
                                nlen as int,
                            ));
                            assert(strip_all(output@) + strip(line@.subrange(0, nlen as int))
                                + strip_from(msg, ni + 1) == strip(msg));
                            assert(spec_seamed(output@, seps) + pending + strip_keep(
                                line@.subrange(0, nlen as int),
                            ) + spec_spaces(split_sp) + seq![' '] + strip_keep_from(msg, ni + 1)
                                == strip_keep(msg));
                        },
                        None => {},
                    }
                }
            }
            i = i + 1;
        }
    }
    let ghost had_line = line@.len() > 0;
    let ghost lastline = line@;
    let ghost out0 = output@;
    let ghost seps0 = seps;
    let ghost pending0 = pending;
    if line.len() > 0 {
        let s = chars_to_string(&line);
        proof {
            lemma_strip_all_snoc(output@, s);
        }
        output.push(s);
        proof {
            if out0.len() > 0 {
                seps = seps0.push(pending0);
            }
            if hh {
                if out0.len() == 0 {
                    assert(output@.len() == 1);
                    assert(spec_seamed(output@, seps) == strip_keep(output@[0]@));
                    assert(spec_seamed(output@, seps) =~= spec_seamed(out0, seps0) + pending0
                        + strip_keep(lastline));
                } else {
                    assert(output@.drop_last() =~= out0);
                    assert(seps.drop_last() =~= seps0);
                    assert(seps.last() == pending0);
                    assert(output@.last()@ == lastline);
                    assert(spec_seamed(output@, seps) =~= spec_seamed(out0, seps0) + pending0
                        + strip_keep(lastline));
                }
            }
        }
    }
    proof {
        if hh {
            assert(strip_from(msg, n as int) =~= Seq::<char>::empty());
            if line@.len() == 0 {
                assert(strip(line@) =~= Seq::<char>::empty());
            }
            assert(strip_all(output@) =~= strip_all(output@) + Seq::<char>::empty());
            assert(strip_keep_from(msg, n as int) =~= Seq::<char>::empty());
            if had_line {
                let trailing = spec_spaces(spaces as int);
                assert(all_spaces(trailing));
                assert(strip_keep(msg) == spec_seamed(output@, seps) + trailing) by {
                    assert(spec_seamed(out0, seps0) + pending0 + strip_keep(lastline)
                        + spec_spaces(spaces as int) + Seq::<char>::empty() =~= (spec_seamed(
                        out0,
                        seps0,
                    ) + pending0 + strip_keep(lastline)) + spec_spaces(spaces as int));
                }
                assert(seps.len() == (if output@.len() == 0 {
                    0int
                } else {
                    output@.len() - 1
                }));
            } else {
                let trailing = pending + spec_spaces(spaces as int);
                assert(strip_keep(lastline) =~= Seq::<char>::empty());
                assert(all_spaces(trailing)) by {
                    assert(forall|j: int|
                        0 <= j < trailing.len() ==> #[trigger] trailing[j] == ' ');
                }
                assert(strip_keep(msg) == spec_seamed(output@, seps) + trailing) by {
                    assert(spec_seamed(output@, seps) + pending + Seq::<char>::empty()
                        + spec_spaces(spaces as int) + Seq::<char>::empty() =~= spec_seamed(
                        output@,
                        seps,
                    ) + (pending + spec_spaces(spaces as int)));
                }
            }
        }
    }
    output
}

} // verus!
