//! The persistence codec's primitives: a line-safe string escaping, a
//! decimal number form, and a line joining/splitting pair, each with the
//! round-trip lemmas the document codec rests on.

use crate::chat_manager::{
    role_label, AssistantMetadataView, ChatHistoryView, MessageView, ModelMetadataView, Role,
};
use vstd::prelude::*;

verus! {

/// An error of reading a persisted document: the text does not match
/// the document schema.
#[derive(Clone, Copy, Debug, PartialEq, Eq, Structural)]
pub struct FormatError;

impl FormatError {
    /// A short description of the error.
    pub fn message(&self) -> (s: &'static str)
        ensures
            s@ == "document does not match the expected schema"@,
    {
        "document does not match the expected schema"
    }
}

/// How one character is written inside a line payload: backslash and
/// newline get two-character escapes, everything else stands as itself.
pub open spec fn esc_char(c: char) -> Seq<char> {
    if c == '\\' {
        seq!['\\', '\\']
    } else if c == '\n' {
        seq!['\\', 'n']
    } else {
        seq![c]
    }
}

/// A text escaped for one line payload.
pub open spec fn esc(s: Seq<char>) -> Seq<char>
    decreases s.len(),
{
    if s.len() == 0 {
        Seq::empty()
    } else {
        esc_char(s[0]) + esc(s.skip(1))
    }
}

/// The inverse reading of [`esc`]: `None` on a dangling or unknown
/// escape.
pub open spec fn unesc(s: Seq<char>) -> Option<Seq<char>>
    decreases s.len(),
{
    if s.len() == 0 {
        Some(Seq::empty())
    } else if s[0] == '\\' {
        if s.len() >= 2 && (s[1] == '\\' || s[1] == 'n') {
            match unesc(s.skip(2)) {
                Some(r) => Some(
                    seq![
                        if s[1] == '\\' {
                            '\\'
                        } else {
                            '\n'
                        },
                    ] + r,
                ),
                None => None,
            }
        } else {
            None
        }
    } else {
        match unesc(s.skip(1)) {
            Some(r) => Some(seq![s[0]] + r),
            None => None,
        }
    }
}

/// True of a line that holds no newline, so joining and splitting on
/// newlines leaves it intact.
pub open spec fn line_clean(l: Seq<char>) -> bool {
    forall|i: int| 0 <= i < l.len() ==> l[i] != '\n'
}

/// An escaped text never holds a newline.
pub proof fn lemma_esc_clean(s: Seq<char>)
    ensures
        line_clean(esc(s)),
    decreases s.len(),
{
    if s.len() > 0 {
        lemma_esc_clean(s.skip(1));
        assert(esc(s) == esc_char(s[0]) + esc(s.skip(1)));
        assert forall|i: int| 0 <= i < esc(s).len() implies esc(s)[i] != '\n' by {
            if i < esc_char(s[0]).len() {
                assert(esc(s)[i] == esc_char(s[0])[i]);
            } else {
                assert(esc(s)[i] == esc(s.skip(1))[i - esc_char(s[0]).len()]);
            }
        }
    }
}

/// Escaping concatenated texts is concatenating their escapes.
pub proof fn lemma_esc_append(a: Seq<char>, b: Seq<char>)
    ensures
        esc(a + b) == esc(a) + esc(b),
    decreases a.len(),
{
    if a.len() == 0 {
        assert(a + b =~= b);
        assert(esc(a) + esc(b) =~= esc(b));
    } else {
        lemma_esc_append(a.skip(1), b);
        assert((a + b).skip(1) =~= a.skip(1) + b);
        assert(esc(a + b) == esc_char((a + b)[0]) + esc((a + b).skip(1)));
        assert((a + b)[0] == a[0]);
        assert(esc_char(a[0]) + (esc(a.skip(1)) + esc(b)) =~= (esc_char(a[0]) + esc(a.skip(1)))
            + esc(b));
    }
}

/// Unescaping inverts escaping: reading an escaped text back gives the
/// text.
pub proof fn lemma_unesc_esc(s: Seq<char>)
    ensures
        unesc(esc(s)) == Some(s),
    decreases s.len(),
{
    if s.len() == 0 {
        assert(unesc(esc(s)) == Some(Seq::<char>::empty()));
        assert(Seq::<char>::empty() =~= s);
    } else {
        lemma_unesc_esc(s.skip(1));
        let e = esc(s);
        assert(e == esc_char(s[0]) + esc(s.skip(1)));
        if s[0] == '\\' {
            assert(e[0] == '\\' && e[1] == '\\');
            assert(e.skip(2) =~= esc(s.skip(1)));
            assert(unesc(e) == Some(seq!['\\'] + s.skip(1)));
            assert(seq!['\\'] + s.skip(1) =~= s);
        } else if s[0] == '\n' {
            assert(e[0] == '\\' && e[1] == 'n');
            assert(e.skip(2) =~= esc(s.skip(1)));
            assert(unesc(e) == Some(seq!['\n'] + s.skip(1)));
            assert(seq!['\n'] + s.skip(1) =~= s);
        } else {
            assert(e[0] == s[0]);
            assert(e.skip(1) =~= esc(s.skip(1)));
            assert(unesc(e) == Some(seq![s[0]] + s.skip(1)));
            assert(seq![s[0]] + s.skip(1) =~= s);
        }
    }
}

/// The escaped form of a text, as written into a line payload.
pub fn escape(s: &str) -> (r: String)
    ensures
        r@ == esc(s@),
{
    let n = s.unicode_len();
    let mut r = String::new();
    let mut i: usize = 0;
    while i < n
        invariant
            n == s@.len(),
            i <= n,
            r@ == esc(s@.take(i as int)),
        decreases n - i,
    {
        let c = s.get_char(i);
        if c == '\\' {
            r.append("\\\\");
            proof {
                reveal_strlit("\\\\");
                assert("\\\\"@ =~= esc_char(c));
            }
        } else if c == '\n' {
            r.append("\\n");
            proof {
                reveal_strlit("\\n");
                assert("\\n"@ =~= esc_char(c));
            }
        } else {
            let piece = s.substring_char(i, i + 1);
            r.append(piece);
            proof {
                assert(piece@ =~= esc_char(c));
            }
        }
        proof {
            assert(s@.take(i + 1 as int) =~= s@.take(i as int) + seq![c]);
            lemma_esc_append(s@.take(i as int), seq![c]);
            assert(seq![c].skip(1) =~= Seq::<char>::empty());
            assert(esc(Seq::<char>::empty()) =~= Seq::<char>::empty());
            assert(esc(seq![c]) =~= esc_char(c));
        }
        i = i + 1;
    }
    proof {
        assert(s@.take(n as int) =~= s@);
    }
    r
}

/// The text a line payload unescapes to; `None` on a dangling or
/// unknown escape.
pub fn unescape(s: &str) -> (r: Option<String>)
    ensures
        match r {
            Some(t) => unesc(s@) == Some(t@),
            None => unesc(s@) is None,
        },
{
    let n = s.unicode_len();
    let mut out = String::new();
    let mut i: usize = 0;
    proof {
        assert(s@.skip(0) =~= s@);
        match unesc(s@) {
            Some(rest) => {
                assert(Seq::<char>::empty() + rest =~= rest);
            },
            None => {},
        }
    }
    while i < n
        invariant
            n == s@.len(),
            i <= n,
            unesc(s@) == (match unesc(s@.skip(i as int)) {
                Some(rest) => Some(out@ + rest),
                None => None::<Seq<char>>,
            }),
        decreases n - i,
    {
        let ghost pre = out@;
        let ghost suf = s@.skip(i as int);
        let c = s.get_char(i);
        assert(suf[0] == c);
        if c == '\\' {
            if i + 1 >= n {
                assert(suf.len() < 2);
                assert(unesc(suf) is None);
                return None;
            }
            let c2 = s.get_char(i + 1);
            assert(suf[1] == c2);
            if c2 == '\\' {
                out.append("\\");
                proof {
                    reveal_strlit("\\");
                    assert("\\"@ =~= seq!['\\']);
                }
            } else if c2 == 'n' {
                out.append("\n");
                proof {
                    reveal_strlit("\n");
                    assert("\n"@ =~= seq!['\n']);
                }
            } else {
                assert(unesc(suf) is None);
                return None;
            }
            proof {
                let rc = if c2 == '\\' {
                    '\\'
                } else {
                    '\n'
                };
                assert(out@ =~= pre + seq![rc]);
                assert(suf.skip(2) =~= s@.skip(i + 2 as int));
                assert(unesc(suf) == (match unesc(s@.skip(i + 2 as int)) {
                    Some(r2) => Some(seq![rc] + r2),
                    None => None::<Seq<char>>,
                }));
                assert(match unesc(s@.skip(i + 2 as int)) {
                    Some(r2) => pre + (seq![rc] + r2) =~= (pre + seq![rc]) + r2,
                    None => true,
                });
            }
            i = i + 2;
        } else {
            let piece = s.substring_char(i, i + 1);
            out.append(piece);
            proof {
                assert(piece@ =~= seq![c]);
                assert(out@ =~= pre + seq![c]);
                assert(suf.skip(1) =~= s@.skip(i + 1 as int));
                assert(unesc(suf) == (match unesc(s@.skip(i + 1 as int)) {
                    Some(r2) => Some(seq![c] + r2),
                    None => None::<Seq<char>>,
                }));
                assert(match unesc(s@.skip(i + 1 as int)) {
                    Some(r2) => pre + (seq![c] + r2) =~= (pre + seq![c]) + r2,
                    None => true,
                });
            }
            i = i + 1;
        }
    }
    proof {
        assert(s@.skip(n as int) =~= Seq::<char>::empty());
        assert(unesc(s@.skip(n as int)) == Some(Seq::<char>::empty()));
        assert(out@ + Seq::<char>::empty() =~= out@);
    }
    Some(out)
}

/// The character a decimal digit is written as.
pub open spec fn dec_digit_char(d: int) -> char {
    if d == 0 {
        '0'
    } else if d == 1 {
        '1'
    } else if d == 2 {
        '2'
    } else if d == 3 {
        '3'
    } else if d == 4 {
        '4'
    } else if d == 5 {
        '5'
    } else if d == 6 {
        '6'
    } else if d == 7 {
        '7'
    } else if d == 8 {
        '8'
    } else {
        '9'
    }
}

/// True of a decimal digit character.
pub open spec fn is_dec_digit(c: char) -> bool {
    c == '0' || c == '1' || c == '2' || c == '3' || c == '4' || c == '5' || c == '6' || c == '7'
        || c == '8' || c == '9'
}

/// The value of a decimal digit character (0 where it is no digit).
pub open spec fn dec_char_val(c: char) -> int {
    if c == '0' {
        0
    } else if c == '1' {
        1
    } else if c == '2' {
        2
    } else if c == '3' {
        3
    } else if c == '4' {
        4
    } else if c == '5' {
        5
    } else if c == '6' {
        6
    } else if c == '7' {
        7
    } else if c == '8' {
        8
    } else if c == '9' {
        9
    } else {
        0
    }
}

/// A number written in decimal, most significant digit first, no sign
/// and no leading zero (except for zero itself).
pub open spec fn dec_digits(n: nat) -> Seq<char>
    decreases n,
{
    if n < 10 {
        seq![dec_digit_char(n as int)]
    } else {
        dec_digits(n / 10) + seq![dec_digit_char((n % 10) as int)]
    }
}

/// True when every character of `s` is a decimal digit and there is at
/// least one.
pub open spec fn is_dec_string(s: Seq<char>) -> bool {
    s.len() > 0 && (forall|i: int| 0 <= i < s.len() ==> is_dec_digit(s[i]))
}

/// The number a digit string denotes.
pub open spec fn dec_seq_value(s: Seq<char>) -> int
    decreases s.len(),
{
    if s.len() == 0 {
        0
    } else {
        dec_seq_value(s.drop_last()) * 10 + dec_char_val(s.last())
    }
}

/// A rendered number is a digit string.
pub proof fn lemma_dec_digits_is_dec_string(n: nat)
    ensures
        is_dec_string(dec_digits(n)),
        dec_digits(n).len() > 0,
    decreases n,
{
    if n < 10 {
        assert(is_dec_digit(dec_digit_char(n as int)));
    } else {
        lemma_dec_digits_is_dec_string(n / 10);
        let d = dec_digits(n);
        let h = dec_digits(n / 10);
        vstd::arithmetic::div_mod::lemma_mod_division_less_than_divisor(n as int, 10);
        assert(is_dec_digit(dec_digit_char((n % 10) as int)));
        assert forall|i: int| 0 <= i < d.len() implies is_dec_digit(d[i]) by {
            if i < h.len() {
                assert(d[i] == h[i]);
            } else {
                assert(d[i] == dec_digit_char((n % 10) as int));
            }
        }
    }
}

/// Reading a rendered number back gives the number.
pub proof fn lemma_dec_digits_value(n: nat)
    ensures
        dec_seq_value(dec_digits(n)) == n,
    decreases n,
{
    if n < 10 {
        let s = dec_digits(n);
        assert(s.drop_last() =~= Seq::<char>::empty());
        assert(dec_seq_value(Seq::<char>::empty()) == 0);
        assert(s.last() == dec_digit_char(n as int));
        assert(dec_seq_value(s) == dec_seq_value(s.drop_last()) * 10 + dec_char_val(s.last()));
        assert(dec_seq_value(s) == dec_char_val(dec_digit_char(n as int)));
    } else {
        lemma_dec_digits_value(n / 10);
        let h = dec_digits(n / 10);
        let s = dec_digits(n);
        assert(s == h + seq![dec_digit_char((n % 10) as int)]);
        assert(s.drop_last() =~= h);
        assert(s.last() == dec_digit_char((n % 10) as int));
        vstd::arithmetic::div_mod::lemma_mod_division_less_than_divisor(n as int, 10);
        assert(dec_char_val(dec_digit_char((n % 10) as int)) == n % 10);
        vstd::arithmetic::div_mod::lemma_fundamental_div_mod(n as int, 10);
    }
}

/// A digit string never holds a newline.
pub proof fn lemma_dec_string_clean(s: Seq<char>)
    requires
        is_dec_string(s),
    ensures
        line_clean(s),
{
    assert forall|i: int| 0 <= i < s.len() implies s[i] != '\n' by {
        assert(is_dec_digit(s[i]));
    }
}

/// A digit string denotes a nonnegative number.
pub proof fn lemma_dec_seq_value_nonneg(s: Seq<char>)
    ensures
        dec_seq_value(s) >= 0,
    decreases s.len(),
{
    if s.len() > 0 {
        lemma_dec_seq_value_nonneg(s.drop_last());
        assert(dec_char_val(s.last()) >= 0);
    }
}

/// Reading more digits never shrinks the value.
pub proof fn lemma_dec_seq_value_monotone(s: Seq<char>, i: int, j: int)
    requires
        0 <= i <= j <= s.len(),
    ensures
        dec_seq_value(s.take(i)) <= dec_seq_value(s.take(j)),
    decreases j - i,
{
    if i < j {
        lemma_dec_seq_value_monotone(s, i, j - 1);
        let p = s.take(j - 1);
        let q = s.take(j);
        assert(q.drop_last() =~= p);
        lemma_dec_seq_value_nonneg(p);
        assert(dec_char_val(q.last()) >= 0);
        assert(dec_seq_value(q) == dec_seq_value(p) * 10 + dec_char_val(q.last()));
    }
}

/// The digit character of a digit value below ten, as a one-character
/// string.
fn dec_digit_exec(d: u64) -> (c: &'static str)
    requires
        d < 10,
    ensures
        c@ =~= seq![dec_digit_char(d as int)],
{
    proof {
        reveal_strlit("0");
        reveal_strlit("1");
        reveal_strlit("2");
        reveal_strlit("3");
        reveal_strlit("4");
        reveal_strlit("5");
        reveal_strlit("6");
        reveal_strlit("7");
        reveal_strlit("8");
        reveal_strlit("9");
    }
    match d {
        0 => "0",
        1 => "1",
        2 => "2",
        3 => "3",
        4 => "4",
        5 => "5",
        6 => "6",
        7 => "7",
        8 => "8",
        _ => "9",
    }
}

/// The value of a digit character, or `None` where it is no digit.
fn dec_val_exec(c: char) -> (r: Option<u32>)
    ensures
        r matches Some(d) ==> is_dec_digit(c) && d == dec_char_val(c) && d < 10,
        r is None ==> !is_dec_digit(c),
{
    match c {
        '0' => Some(0),
        '1' => Some(1),
        '2' => Some(2),
        '3' => Some(3),
        '4' => Some(4),
        '5' => Some(5),
        '6' => Some(6),
        '7' => Some(7),
        '8' => Some(8),
        '9' => Some(9),
        _ => None,
    }
}

/// A number written in decimal.
pub fn render_u64(n: u64) -> (r: String)
    ensures
        r@ == dec_digits(n as nat),
    decreases n,
{
    let d = n % 10;
    let c = dec_digit_exec(d);
    if n < 10 {
        let mut r = String::new();
        r.append(c);
        assert(r@ =~= dec_digits(n as nat));
        r
    } else {
        let mut r = render_u64(n / 10);
        r.append(c);
        proof {
            assert(dec_digits((n / 10) as nat) + c@ =~= dec_digits(n as nat));
        }
        r
    }
}

/// A possibly negative number written in decimal, with a leading minus
/// sign when negative.
pub open spec fn dec_digits_signed(n: int) -> Seq<char> {
    if n < 0 {
        seq!['-'] + dec_digits((-n) as nat)
    } else {
        dec_digits(n as nat)
    }
}

/// A signed number written in decimal.
pub fn render_i64(n: i64) -> (r: String)
    requires
        n > i64::MIN,
    ensures
        r@ == dec_digits_signed(n as int),
{
    if n < 0 {
        let mut r = String::new();
        r.append("-");
        let m = render_u64((-n) as u64);
        r.append(m.as_str());
        proof {
            reveal_strlit("-");
            assert("-"@ =~= seq!['-']);
            assert(r@ =~= seq!['-'] + dec_digits((-n) as nat));
        }
        r
    } else {
        render_u64(n as u64)
    }
}

/// The number a string denotes in decimal, when it is a digit string
/// whose value fits a `u32`.
pub fn parse_u32(s: &str) -> (r: Option<u32>)
    ensures
        r matches Some(v) ==> is_dec_string(s@) && v as int == dec_seq_value(s@),
        r is None ==> !is_dec_string(s@) || dec_seq_value(s@) > u32::MAX,
{
    let n = s.unicode_len();
    if n == 0 {
        return None;
    }
    let mut acc: u32 = 0;
    let mut i: usize = 0;
    proof {
        assert(s@.take(0) =~= Seq::<char>::empty());
    }
    while i < n
        invariant
            n == s@.len(),
            0 < n,
            i <= n,
            acc as int == dec_seq_value(s@.take(i as int)),
            forall|j: int| 0 <= j < i ==> is_dec_digit(s@[j]),
        decreases n - i,
    {
        let c = s.get_char(i);
        let d = match dec_val_exec(c) {
            Some(d) => d,
            None => {
                assert(!is_dec_digit(s@[i as int]));
                return None;
            },
        };
        let ghost p = s@.take(i as int);
        let ghost q = s@.take(i + 1 as int);
        proof {
            assert(q.drop_last() =~= p);
            assert(q.last() == c);
            assert(dec_seq_value(q) == dec_seq_value(p) * 10 + dec_char_val(c));
        }
        let shifted = match acc.checked_mul(10) {
            Some(t) => t,
            None => {
                proof {
                    lemma_dec_seq_value_monotone(s@, i + 1 as int, n as int);
                    assert(s@.take(n as int) =~= s@);
                }
                return None;
            },
        };
        let next = match shifted.checked_add(d) {
            Some(t) => t,
            None => {
                proof {
                    lemma_dec_seq_value_monotone(s@, i + 1 as int, n as int);
                    assert(s@.take(n as int) =~= s@);
                }
                return None;
            },
        };
        acc = next;
        i = i + 1;
    }
    proof {
        assert(s@.take(n as int) =~= s@);
    }
    Some(acc)
}

/// The position of the first newline in `s`, when any.
pub open spec fn first_nl(s: Seq<char>) -> Option<int>
    decreases s.len(),
{
    if s.len() == 0 {
        None
    } else if s[0] == '\n' {
        Some(0)
    } else {
        match first_nl(s.skip(1)) {
            Some(i) => Some(i + 1),
            None => None,
        }
    }
}

/// A found newline position is in bounds and is the first one.
pub proof fn lemma_first_nl_bounds(s: Seq<char>)
    ensures
        match first_nl(s) {
            Some(i) => 0 <= i < s.len() && s[i] == '\n' && (forall|j: int|
                0 <= j < i ==> s[j] != '\n'),
            None => forall|j: int| 0 <= j < s.len() ==> s[j] != '\n',
        },
    decreases s.len(),
{
    if s.len() > 0 && s[0] != '\n' {
        lemma_first_nl_bounds(s.skip(1));
        let t = s.skip(1);
        match first_nl(t) {
            Some(i) => {
                assert(s[i + 1] == t[i]);
                assert forall|j: int| 0 <= j < i + 1 implies s[j] != '\n' by {
                    if j > 0 {
                        assert(t[j - 1] == s[j]);
                        assert(t[j - 1] != '\n');
                    }
                }
            },
            None => {
                assert forall|j: int| 0 <= j < s.len() implies s[j] != '\n' by {
                    if j > 0 {
                        assert(t[j - 1] == s[j]);
                        assert(t[j - 1] != '\n');
                    }
                }
            },
        }
    }
}

/// In a text made of a clean line, a newline and a rest, the first
/// newline is exactly the one after the line.
pub proof fn lemma_first_nl_of_clean_prefix(l: Seq<char>, r: Seq<char>)
    requires
        line_clean(l),
    ensures
        first_nl(l + seq!['\n'] + r) == Some(l.len() as int),
    decreases l.len(),
{
    let s = l + seq!['\n'] + r;
    if l.len() == 0 {
        assert(s[0] == '\n');
    } else {
        assert(line_clean(l.skip(1)));
        lemma_first_nl_of_clean_prefix(l.skip(1), r);
        assert(s[0] == l[0]);
        assert(s[0] != '\n');
        assert(s.skip(1) =~= l.skip(1) + seq!['\n'] + r);
    }
}

/// Lines joined into one text, every line followed by a newline.
pub open spec fn join_lines(ls: Seq<Seq<char>>) -> Seq<char>
    decreases ls.len(),
{
    if ls.len() == 0 {
        Seq::empty()
    } else {
        ls[0] + seq!['\n'] + join_lines(ls.skip(1))
    }
}

/// Joining concatenated line lists is concatenating their joins.
pub proof fn lemma_join_lines_append(a: Seq<Seq<char>>, b: Seq<Seq<char>>)
    ensures
        join_lines(a + b) == join_lines(a) + join_lines(b),
    decreases a.len(),
{
    if a.len() == 0 {
        assert(a + b =~= b);
        assert(join_lines(a) + join_lines(b) =~= join_lines(b));
    } else {
        lemma_join_lines_append(a.skip(1), b);
        assert((a + b).skip(1) =~= a.skip(1) + b);
        assert((a + b)[0] == a[0]);
        assert(a[0] + seq!['\n'] + (join_lines(a.skip(1)) + join_lines(b)) =~= (a[0] + seq!['\n']
            + join_lines(a.skip(1))) + join_lines(b));
    }
}

/// A text cut into its newline-terminated lines; `None` when it does
/// not end in a newline (and is not empty).
pub open spec fn split_lines(s: Seq<char>) -> Option<Seq<Seq<char>>>
    decreases s.len(),
{
    if s.len() == 0 {
        Some(Seq::empty())
    } else {
        match first_nl(s) {
            Some(i) => if 0 <= i < s.len() {
                match split_lines(s.skip(i + 1)) {
                    Some(r) => Some(seq![s.take(i)] + r),
                    None => None,
                }
            } else {
                None
            },
            None => None,
        }
    }
}

/// Splitting inverts joining: cutting a join of clean lines gives the
/// lines back.
pub proof fn lemma_split_join(ls: Seq<Seq<char>>)
    requires
        forall|i: int| 0 <= i < ls.len() ==> line_clean(#[trigger] ls[i]),
    ensures
        split_lines(join_lines(ls)) == Some(ls),
    decreases ls.len(),
{
    if ls.len() == 0 {
        assert(split_lines(join_lines(ls)) == Some(Seq::<Seq<char>>::empty()));
        assert(Seq::<Seq<char>>::empty() =~= ls);
    } else {
        assert(forall|i: int|
            0 <= i < ls.skip(1).len() ==> #[trigger] ls.skip(1)[i] == ls[i + 1]);
        lemma_split_join(ls.skip(1));
        let s = join_lines(ls);
        let l = ls[0];
        let rest = join_lines(ls.skip(1));
        assert(s == l + seq!['\n'] + rest);
        lemma_first_nl_of_clean_prefix(l, rest);
        assert(s.len() > 0);
        assert(first_nl(s) == Some(l.len() as int));
        assert(s.take(l.len() as int) =~= l);
        assert(s.skip(l.len() as int + 1) =~= rest);
        assert(split_lines(s) == Some(seq![l] + ls.skip(1)));
        assert(seq![l] + ls.skip(1) =~= ls);
    }
}

/// The lines joined into one text, each line followed by a newline.
pub fn join_lines_exec(lines: &Vec<String>) -> (r: String)
    ensures
        r@ == join_lines(lines@.map_values(|l: String| l@)),
{
    let ghost ls = lines@.map_values(|l: String| l@);
    let mut r = String::new();
    let mut i: usize = 0;
    proof {
        assert(ls.take(0) =~= Seq::<Seq<char>>::empty());
        assert(r@ =~= join_lines(ls.take(0)));
    }
    while i < lines.len()
        invariant
            ls == lines@.map_values(|l: String| l@),
            i <= lines@.len(),
            r@ == join_lines(ls.take(i as int)),
        decreases lines@.len() - i,
    {
        r.append(lines[i].as_str());
        r.append("\n");
        proof {
            reveal_strlit("\n");
            assert("\n"@ =~= seq!['\n']);
            assert(ls.take(i + 1 as int) =~= ls.take(i as int) + seq![ls[i as int]]);
            lemma_join_lines_append(ls.take(i as int), seq![ls[i as int]]);
            assert(seq![ls[i as int]].skip(1) =~= Seq::<Seq<char>>::empty());
            assert(join_lines(Seq::<Seq<char>>::empty()) =~= Seq::<char>::empty());
            assert(join_lines(seq![ls[i as int]]) == ls[i as int] + seq!['\n'] + join_lines(
                seq![ls[i as int]].skip(1),
            ));
            assert(join_lines(seq![ls[i as int]]) =~= ls[i as int] + seq!['\n']);
            assert(r@ =~= join_lines(ls.take(i as int)) + (ls[i as int] + seq!['\n']));
        }
        i = i + 1;
    }
    proof {
        assert(ls.take(lines@.len() as int) =~= ls);
    }
    r
}

/// The newline-terminated lines of a text; `None` when it does not end
/// in a newline.
pub fn split_lines_exec(s: &str) -> (r: Option<Vec<String>>)
    ensures
        match r {
            Some(v) => split_lines(s@) == Some(v@.map_values(|l: String| l@)),
            None => split_lines(s@) is None,
        },
{
    let n = s.unicode_len();
    let mut out: Vec<String> = Vec::new();
    let mut pos: usize = 0;
    proof {
        assert(s@.skip(0) =~= s@);
    }
    while pos < n
        invariant
            n == s@.len(),
            pos <= n,
            match split_lines(s@.skip(pos as int)) {
                Some(rest) => split_lines(s@) == Some(out@.map_values(|l: String| l@) + rest),
                None => split_lines(s@) is None,
            },
        decreases n - pos,
    {
        let ghost suf = s@.skip(pos as int);
        let mut j: usize = pos;
        let mut found = false;
        while j < n && !found
            invariant
                n == s@.len(),
                pos <= j <= n,
                !found ==> forall|k: int| pos <= k < j ==> s@[k] != '\n',
                found ==> j < n && s@[j as int] == '\n' && (forall|k: int|
                    pos <= k < j ==> s@[k] != '\n'),
            decreases n - j + (if found {
                0int
            } else {
                1int
            }),
        {
            if s.get_char(j) == '\n' {
                found = true;
            } else {
                j = j + 1;
            }
        }
        if !found {
            proof {
                lemma_first_nl_bounds(suf);
                assert(forall|k: int| 0 <= k < suf.len() ==> suf[k] == s@[k + pos]);
                match first_nl(suf) {
                    Some(fi) => {
                        assert(suf[fi] == '\n');
                        assert(s@[fi + pos] == '\n');
                        assert(false);
                    },
                    None => {},
                }
                assert(split_lines(suf) is None);
            }
            return None;
        }
        let line = s.substring_char(pos, j);
        let ghost old_views = out@.map_values(|x: String| x@);
        out.push(line.to_owned());
        proof {
            let l = suf.take(j - pos);
            let rest2 = s@.skip(j + 1 as int);
            assert(forall|k: int| 0 <= k < l.len() ==> l[k] == s@[k + pos]);
            assert(line_clean(l));
            assert(suf =~= l + seq!['\n'] + rest2);
            lemma_first_nl_of_clean_prefix(l, rest2);
            assert(first_nl(suf) == Some(j - pos));
            assert(suf.len() > 0);
            assert(suf.take(j - pos) =~= l);
            assert(suf.skip(j - pos + 1) =~= rest2);
            assert(split_lines(suf) == (match split_lines(rest2) {
                Some(r2) => Some(seq![l] + r2),
                None => None::<Seq<Seq<char>>>,
            }));
            assert(line@ =~= l);
            assert(out@.map_values(|x: String| x@) =~= old_views + seq![l]);
            match split_lines(rest2) {
                Some(r2) => {
                    assert(old_views + (seq![l] + r2) =~= (old_views + seq![l]) + r2);
                },
                None => {},
            }
        }
        pos = j + 1;
    }
    proof {
        assert(s@.skip(n as int) =~= Seq::<char>::empty());
        assert(split_lines(s@.skip(n as int)) == Some(Seq::<Seq<char>>::empty()));
        assert(out@.map_values(|l: String| l@) + Seq::<Seq<char>>::empty() =~= out@.map_values(
            |l: String| l@,
        ));
    }
    Some(out)
}

/// Whitespace, as trimmed from a title reply: the characters of
/// Unicode's White_Space property, the set `str::trim` drops.
pub open spec fn is_space(c: char) -> bool {
    ('\u{0009}' <= c && c <= '\u{000D}') || c == ' ' || c == '\u{0085}' || c == '\u{00A0}' || c
        == '\u{1680}' || ('\u{2000}' <= c && c <= '\u{200A}') || c == '\u{2028}' || c == '\u{2029}'
        || c == '\u{202F}' || c == '\u{205F}' || c == '\u{3000}'
}

/// The text with its leading whitespace dropped.
pub open spec fn trim_front(s: Seq<char>) -> Seq<char>
    decreases s.len(),
{
    if s.len() > 0 && is_space(s[0]) {
        trim_front(s.skip(1))
    } else {
        s
    }
}

/// The text with its trailing whitespace dropped.
pub open spec fn trim_back(s: Seq<char>) -> Seq<char>
    decreases s.len(),
{
    if s.len() > 0 && is_space(s.last()) {
        trim_back(s.drop_last())
    } else {
        s
    }
}

/// The text with leading and trailing whitespace dropped.
pub open spec fn trim_spec(s: Seq<char>) -> Seq<char> {
    trim_back(trim_front(s))
}

/// Dropping any all-whitespace prefix is a no-op for `trim_front`.
proof fn lemma_trim_front_skip(s: Seq<char>, k: int)
    requires
        0 <= k <= s.len(),
        forall|j: int| 0 <= j < k ==> is_space(s[j]),
    ensures
        trim_front(s) == trim_front(s.skip(k)),
    decreases k,
{
    if k > 0 {
        assert(is_space(s[0]));
        assert(trim_front(s) == trim_front(s.skip(1)));
        assert forall|j: int| 0 <= j < k - 1 implies is_space(s.skip(1)[j]) by {
            assert(s.skip(1)[j] == s[j + 1]);
        }
        lemma_trim_front_skip(s.skip(1), k - 1);
        assert(s.skip(1).skip(k - 1) =~= s.skip(k));
    } else {
        assert(s.skip(0) =~= s);
    }
}

/// Dropping any all-whitespace suffix is a no-op for `trim_back`.
proof fn lemma_trim_back_take(s: Seq<char>, k: int)
    requires
        0 <= k <= s.len(),
        forall|j: int| k <= j < s.len() ==> is_space(s[j]),
    ensures
        trim_back(s) == trim_back(s.take(k)),
    decreases s.len() - k,
{
    if k < s.len() {
        assert(is_space(s.last()));
        lemma_trim_back_take(s.drop_last(), k);
        assert(s.drop_last().take(k) =~= s.take(k));
    } else {
        assert(s.take(k) =~= s);
    }
}

/// The text with leading and trailing whitespace dropped.
pub fn trim_str(s: &str) -> (r: String)
    ensures
        r@ == trim_spec(s@),
{
    let n = s.unicode_len();
    let mut start: usize = 0;
    while start < n && is_space_exec(s.get_char(start))
        invariant
            n == s@.len(),
            start <= n,
            forall|j: int| 0 <= j < start ==> is_space(s@[j]),
        decreases n - start,
    {
        start = start + 1;
    }
    proof {
        lemma_trim_front_skip(s@, start as int);
        if start < n {
            assert(!is_space(s@.skip(start as int)[0]));
        }
        assert(trim_front(s@) == s@.skip(start as int));
    }
    if start == n {
        proof {
            assert(s@.skip(n as int) =~= Seq::<char>::empty());
            assert(trim_back(Seq::<char>::empty()) =~= Seq::<char>::empty());
        }
        return String::new();
    }
    let mut end: usize = n;
    while end > start + 1 && is_space_exec(s.get_char(end - 1))
        invariant
            n == s@.len(),
            start < end <= n,
            forall|j: int| end <= j < n ==> is_space(s@[j]),
        decreases end,
    {
        end = end - 1;
    }
    let ghost t = s@.skip(start as int);
    proof {
        assert(forall|j: int| 0 <= j < t.len() ==> t[j] == s@[j + start]);
        lemma_trim_back_take(t, end - start);
        assert(!is_space(t[0]));
        if end > start + 1 {
            assert(!is_space(s@[end - 1]));
            assert(!is_space(t.take(end - start).last()));
        } else {
            assert(!is_space(t.take(1).last()));
        }
        assert(trim_back(t.take(end - start)) == t.take(end - start));
        assert(t.take(end - start) =~= s@.subrange(start as int, end as int));
    }
    let r = s.substring_char(start, end);
    r.to_owned()
}

/// Whether a character counts as whitespace for trimming.
fn is_space_exec(c: char) -> (b: bool)
    ensures
        b == is_space(c),
{
    ('\u{0009}' <= c && c <= '\u{000D}') || c == ' ' || c == '\u{0085}' || c == '\u{00A0}' || c
        == '\u{1680}' || ('\u{2000}' <= c && c <= '\u{200A}') || c == '\u{2028}' || c == '\u{2029}'
        || c == '\u{202F}' || c == '\u{205F}' || c == '\u{3000}'
}

/// How an optional text stands in a line payload: a lone minus for
/// absent, a plus followed by the escaped text for present.
pub open spec fn opt_payload(o: Option<Seq<char>>) -> Seq<char> {
    match o {
        None => seq!['-'],
        Some(s) => seq!['+'] + esc(s),
    }
}

/// The inverse reading of [`opt_payload`].
pub open spec fn parse_opt_payload(p: Seq<char>) -> Option<Option<Seq<char>>> {
    if p == seq!['-'] {
        Some(None)
    } else if p.len() >= 1 && p[0] == '+' {
        match unesc(p.skip(1)) {
            Some(s) => Some(Some(s)),
            None => None,
        }
    } else {
        None
    }
}

/// How an optional number stands in a line payload.
pub open spec fn opt_num_payload(o: Option<u32>) -> Seq<char> {
    match o {
        None => seq!['-'],
        Some(n) => seq!['+'] + dec_digits(n as nat),
    }
}

/// The reading of a number payload that must fit a `u32`.
pub open spec fn parse_num_payload(p: Seq<char>) -> Option<u32> {
    if is_dec_string(p) && dec_seq_value(p) <= u32::MAX {
        Some(dec_seq_value(p) as u32)
    } else {
        None
    }
}

/// The inverse reading of [`opt_num_payload`].
pub open spec fn parse_opt_num_payload(p: Seq<char>) -> Option<Option<u32>> {
    if p == seq!['-'] {
        Some(None)
    } else if p.len() >= 1 && p[0] == '+' {
        match parse_num_payload(p.skip(1)) {
            Some(n) => Some(Some(n)),
            None => None,
        }
    } else {
        None
    }
}

/// Reading an optional-text payload back gives the optional text.
pub proof fn lemma_parse_opt_payload(o: Option<Seq<char>>)
    ensures
        parse_opt_payload(opt_payload(o)) == Some(o),
{
    match o {
        None => {},
        Some(s) => {
            let p = opt_payload(o);
            assert(p[0] == '+');
            assert(p != seq!['-']) by {
                if p == seq!['-'] {
                    assert(p[0] == '-');
                }
            }
            assert(p.skip(1) =~= esc(s));
            lemma_unesc_esc(s);
        },
    }
}

/// Reading an optional-number payload back gives the optional number.
pub proof fn lemma_parse_opt_num_payload(o: Option<u32>)
    ensures
        parse_opt_num_payload(opt_num_payload(o)) == Some(o),
{
    match o {
        None => {},
        Some(n) => {
            let p = opt_num_payload(o);
            assert(p[0] == '+');
            assert(p != seq!['-']) by {
                if p == seq!['-'] {
                    assert(p[0] == '-');
                }
            }
            assert(p.skip(1) =~= dec_digits(n as nat));
            lemma_dec_digits_is_dec_string(n as nat);
            lemma_dec_digits_value(n as nat);
        },
    }
}

/// An optional-text payload never holds a newline.
pub proof fn lemma_opt_payload_clean(o: Option<Seq<char>>)
    ensures
        line_clean(opt_payload(o)),
{
    match o {
        None => {},
        Some(s) => {
            lemma_esc_clean(s);
            let p = opt_payload(o);
            assert forall|i: int| 0 <= i < p.len() implies p[i] != '\n' by {
                if i > 0 {
                    assert(p[i] == esc(s)[i - 1]);
                }
            }
        },
    }
}

/// An optional-number payload never holds a newline.
pub proof fn lemma_opt_num_payload_clean(o: Option<u32>)
    ensures
        line_clean(opt_num_payload(o)),
{
    match o {
        None => {},
        Some(n) => {
            lemma_dec_digits_is_dec_string(n as nat);
            lemma_dec_string_clean(dec_digits(n as nat));
            let p = opt_num_payload(o);
            assert forall|i: int| 0 <= i < p.len() implies p[i] != '\n' by {
                if i > 0 {
                    assert(p[i] == dec_digits(n as nat)[i - 1]);
                }
            }
        },
    }
}

/// One line of the document: a tag, one space, and the payload.
pub open spec fn line_of(tag: Seq<char>, payload: Seq<char>) -> Seq<char> {
    tag + seq![' '] + payload
}

/// The payload of a line that starts with the given tag and a space;
/// `None` where the line does not.
pub open spec fn tag_payload(l: Seq<char>, tag: Seq<char>) -> Option<Seq<char>> {
    if l.len() > tag.len() && l.take(tag.len() as int) == tag && l[tag.len() as int] == ' ' {
        Some(l.skip(tag.len() as int + 1))
    } else {
        None
    }
}

/// Reading a rendered line's payload back gives the payload.
pub proof fn lemma_tag_payload_of_line(tag: Seq<char>, p: Seq<char>)
    ensures
        tag_payload(line_of(tag, p), tag) == Some(p),
{
    let l = line_of(tag, p);
    assert(l.len() == tag.len() + 1 + p.len());
    assert(l.take(tag.len() as int) =~= tag);
    assert(l[tag.len() as int] == ' ');
    assert(l.skip(tag.len() as int + 1) =~= p);
}

/// A line of clean parts is clean.
pub proof fn lemma_line_of_clean(tag: Seq<char>, p: Seq<char>)
    requires
        line_clean(tag),
        line_clean(p),
    ensures
        line_clean(line_of(tag, p)),
{
    let l = line_of(tag, p);
    assert forall|i: int| 0 <= i < l.len() implies l[i] != '\n' by {
        if i < tag.len() {
            assert(l[i] == tag[i]);
        } else if i == tag.len() {
            assert(l[i] == ' ');
        } else {
            assert(l[i] == p[i - tag.len() - 1]);
        }
    }
}

/// The three lines one message is written as.
pub open spec fn message_lines(m: MessageView) -> Seq<Seq<char>> {
    seq![
        line_of("role"@, role_label(m.role)),
        line_of("name"@, opt_payload(m.name)),
        line_of("content"@, esc(m.content)),
    ]
}

/// The lines a whole message log is written as.
pub open spec fn messages_lines(ms: Seq<MessageView>) -> Seq<Seq<char>>
    decreases ms.len(),
{
    if ms.len() == 0 {
        Seq::empty()
    } else {
        message_lines(ms[0]) + messages_lines(ms.skip(1))
    }
}

/// The six header lines of a session document.
pub open spec fn header_lines(v: ChatHistoryView) -> Seq<Seq<char>> {
    seq![
        line_of("model"@, esc(v.model.name)),
        line_of("limit"@, dec_digits(v.model.token_limit as nat)),
        line_of("persona"@, esc(v.persona.system_prompt)),
        line_of("started"@, opt_payload(v.started_at)),
        line_of("title"@, opt_payload(v.title)),
        line_of("usage"@, opt_num_payload(v.usage)),
    ]
}

/// The lines of a whole session document: the header, then each
/// message's three lines, in log order.
pub open spec fn doc_lines(v: ChatHistoryView) -> Seq<Seq<char>> {
    header_lines(v) + messages_lines(v.messages)
}

/// A whole session written as one document.
pub open spec fn render_doc(v: ChatHistoryView) -> Seq<char> {
    join_lines(doc_lines(v))
}

/// The role a payload denotes, when it is one of the three labels.
pub open spec fn parse_role_payload(p: Seq<char>) -> Option<Role> {
    if p == role_label(Role::System) {
        Some(Role::System)
    } else if p == role_label(Role::User) {
        Some(Role::User)
    } else if p == role_label(Role::Assistant) {
        Some(Role::Assistant)
    } else {
        None
    }
}

/// The message three lines denote, when they match the schema.
pub open spec fn parse_message_lines(l0: Seq<char>, l1: Seq<char>, l2: Seq<char>) -> Option<
    MessageView,
> {
    match (tag_payload(l0, "role"@), tag_payload(l1, "name"@), tag_payload(l2, "content"@)) {
        (Some(pr), Some(pn), Some(pc)) => match (parse_role_payload(pr), parse_opt_payload(pn), unesc(pc)) {
            (Some(role), Some(name), Some(content)) => Some(MessageView { role, content, name }),
            _ => None,
        },
        _ => None,
    }
}

/// The message log a line list denotes, three lines per message.
pub open spec fn parse_messages_lines(ls: Seq<Seq<char>>) -> Option<Seq<MessageView>>
    decreases ls.len(),
{
    if ls.len() == 0 {
        Some(Seq::empty())
    } else if ls.len() < 3 {
        None
    } else {
        match parse_message_lines(ls[0], ls[1], ls[2]) {
            Some(m) => match parse_messages_lines(ls.skip(3)) {
                Some(r) => Some(seq![m] + r),
                None => None,
            },
            None => None,
        }
    }
}

/// The session a line list denotes, when it matches the schema.
pub open spec fn parse_doc_lines(ls: Seq<Seq<char>>) -> Option<ChatHistoryView> {
    if ls.len() < 6 {
        None
    } else {
        match (
            tag_payload(ls[0], "model"@),
            tag_payload(ls[1], "limit"@),
            tag_payload(ls[2], "persona"@),
            tag_payload(ls[3], "started"@),
            tag_payload(ls[4], "title"@),
            tag_payload(ls[5], "usage"@),
        ) {
            (Some(pm), Some(pl), Some(pp), Some(ps), Some(pt), Some(pu)) => match (
                unesc(pm),
                parse_num_payload(pl),
                unesc(pp),
                parse_opt_payload(ps),
                parse_opt_payload(pt),
                parse_opt_num_payload(pu),
                parse_messages_lines(ls.skip(6)),
            ) {
                (
                    Some(name),
                    Some(limit),
                    Some(prompt),
                    Some(started),
                    Some(title),
                    Some(usage),
                    Some(msgs),
                ) => Some(
                    ChatHistoryView {
                        messages: msgs,
                        usage,
                        started_at: started,
                        title,
                        model: ModelMetadataView { name, token_limit: limit },
                        persona: AssistantMetadataView { system_prompt: prompt },
                    },
                ),
                _ => None,
            },
            _ => None,
        }
    }
}

/// The session a document text denotes, when it matches the schema.
pub open spec fn parse_doc(s: Seq<char>) -> Option<ChatHistoryView> {
    match split_lines(s) {
        Some(ls) => parse_doc_lines(ls),
        None => None,
    }
}

/// Reading a role label back gives the role.
pub proof fn lemma_parse_role_payload(r: Role)
    ensures
        parse_role_payload(role_label(r)) == Some(r),
{
    reveal_strlit("system");
    reveal_strlit("user");
    reveal_strlit("assistant");
    assert("system"@.len() == 6);
    assert("user"@.len() == 4);
    assert("assistant"@.len() == 9);
}

/// A role label never holds a newline.
pub proof fn lemma_role_label_clean(r: Role)
    ensures
        line_clean(role_label(r)),
{
    reveal_strlit("system");
    reveal_strlit("user");
    reveal_strlit("assistant");
}

/// Every line of a rendered message log is clean.
pub proof fn lemma_messages_lines_clean(ms: Seq<MessageView>)
    ensures
        forall|i: int| 0 <= i < messages_lines(ms).len() ==> line_clean(
            #[trigger] messages_lines(ms)[i],
        ),
    decreases ms.len(),
{
    reveal_strlit("role");
    reveal_strlit("name");
    reveal_strlit("content");
    if ms.len() > 0 {
        lemma_messages_lines_clean(ms.skip(1));
        let m = ms[0];
        lemma_role_label_clean(m.role);
        lemma_opt_payload_clean(m.name);
        lemma_esc_clean(m.content);
        lemma_line_of_clean("role"@, role_label(m.role));
        lemma_line_of_clean("name"@, opt_payload(m.name));
        lemma_line_of_clean("content"@, esc(m.content));
        let all = messages_lines(ms);
        assert forall|i: int| 0 <= i < all.len() implies line_clean(#[trigger] all[i]) by {
            if i < 3 {
                assert(all[i] == message_lines(m)[i]);
            } else {
                assert(all[i] == messages_lines(ms.skip(1))[i - 3]);
            }
        }
    }
}

/// Reading a rendered message log's lines back gives the log.
pub proof fn lemma_parse_messages_lines(ms: Seq<MessageView>)
    ensures
        parse_messages_lines(messages_lines(ms)) == Some(ms),
    decreases ms.len(),
{
    if ms.len() == 0 {
        assert(parse_messages_lines(messages_lines(ms)) == Some(Seq::<MessageView>::empty()));
        assert(Seq::<MessageView>::empty() =~= ms);
    } else {
        lemma_parse_messages_lines(ms.skip(1));
        let m = ms[0];
        let ls = messages_lines(ms);
        let three = message_lines(m);
        assert(ls == three + messages_lines(ms.skip(1)));
        assert(ls.len() >= 3);
        assert(ls[0] == three[0] && ls[1] == three[1] && ls[2] == three[2]);
        lemma_tag_payload_of_line("role"@, role_label(m.role));
        lemma_tag_payload_of_line("name"@, opt_payload(m.name));
        lemma_tag_payload_of_line("content"@, esc(m.content));
        lemma_parse_role_payload(m.role);
        lemma_parse_opt_payload(m.name);
        lemma_unesc_esc(m.content);
        assert(parse_message_lines(ls[0], ls[1], ls[2]) == Some(
            MessageView { role: m.role, content: m.content, name: m.name },
        ));
        assert(MessageView { role: m.role, content: m.content, name: m.name } =~= m);
        assert(ls.skip(3) =~= messages_lines(ms.skip(1)));
        assert(parse_messages_lines(ls) == Some(seq![m] + ms.skip(1)));
        assert(seq![m] + ms.skip(1) =~= ms);
    }
}

/// The round-trip law of the codec: reading a rendered session document
/// back gives the session, every field intact.
pub proof fn lemma_parse_render_doc(v: ChatHistoryView)
    ensures
        parse_doc(render_doc(v)) == Some(v),
{
    reveal_strlit("model");
    reveal_strlit("limit");
    reveal_strlit("persona");
    reveal_strlit("started");
    reveal_strlit("title");
    reveal_strlit("usage");
    reveal_strlit("role");
    reveal_strlit("name");
    reveal_strlit("content");
    let ls = doc_lines(v);
    let hd = header_lines(v);
    lemma_esc_clean(v.model.name);
    lemma_dec_digits_is_dec_string(v.model.token_limit as nat);
    lemma_dec_string_clean(dec_digits(v.model.token_limit as nat));
    lemma_esc_clean(v.persona.system_prompt);
    lemma_opt_payload_clean(v.started_at);
    lemma_opt_payload_clean(v.title);
    lemma_opt_num_payload_clean(v.usage);
    lemma_line_of_clean("model"@, esc(v.model.name));
    lemma_line_of_clean("limit"@, dec_digits(v.model.token_limit as nat));
    lemma_line_of_clean("persona"@, esc(v.persona.system_prompt));
    lemma_line_of_clean("started"@, opt_payload(v.started_at));
    lemma_line_of_clean("title"@, opt_payload(v.title));
    lemma_line_of_clean("usage"@, opt_num_payload(v.usage));
    lemma_messages_lines_clean(v.messages);
    assert forall|i: int| 0 <= i < ls.len() implies line_clean(#[trigger] ls[i]) by {
        if i < 6 {
            assert(ls[i] == hd[i]);
        } else {
            assert(ls[i] == messages_lines(v.messages)[i - 6]);
        }
    }
    lemma_split_join(ls);
    assert(split_lines(render_doc(v)) == Some(ls));
    assert(ls[0] == hd[0] && ls[1] == hd[1] && ls[2] == hd[2] && ls[3] == hd[3] && ls[4] == hd[4]
        && ls[5] == hd[5]);
    lemma_tag_payload_of_line("model"@, esc(v.model.name));
    lemma_tag_payload_of_line("limit"@, dec_digits(v.model.token_limit as nat));
    lemma_tag_payload_of_line("persona"@, esc(v.persona.system_prompt));
    lemma_tag_payload_of_line("started"@, opt_payload(v.started_at));
    lemma_tag_payload_of_line("title"@, opt_payload(v.title));
    lemma_tag_payload_of_line("usage"@, opt_num_payload(v.usage));
    lemma_unesc_esc(v.model.name);
    lemma_dec_digits_value(v.model.token_limit as nat);
    assert(parse_num_payload(dec_digits(v.model.token_limit as nat)) == Some(
        v.model.token_limit,
    ));
    lemma_unesc_esc(v.persona.system_prompt);
    lemma_parse_opt_payload(v.started_at);
    lemma_parse_opt_payload(v.title);
    lemma_parse_opt_num_payload(v.usage);
    assert(ls.skip(6) =~= messages_lines(v.messages));
    lemma_parse_messages_lines(v.messages);
    let parsed = parse_doc_lines(ls);
    assert(parsed == Some(
        ChatHistoryView {
            messages: v.messages,
            usage: v.usage,
            started_at: v.started_at,
            title: v.title,
            model: ModelMetadataView { name: v.model.name, token_limit: v.model.token_limit },
            persona: AssistantMetadataView { system_prompt: v.persona.system_prompt },
        },
    ));
    assert(ModelMetadataView { name: v.model.name, token_limit: v.model.token_limit } =~= v.model);
    assert(AssistantMetadataView { system_prompt: v.persona.system_prompt } =~= v.persona);
    assert(ChatHistoryView {
        messages: v.messages,
        usage: v.usage,
        started_at: v.started_at,
        title: v.title,
        model: v.model,
        persona: v.persona,
    } =~= v);
}

/// The file name a session is saved under: the start timestamp, an
/// underscore, the title (absent giving an empty component), and the
/// document suffix.
pub open spec fn file_name_spec(started: Seq<char>, title: Option<Seq<char>>) -> Seq<char> {
    started + seq!['_'] + (match title {
        Some(t) => t,
        None => Seq::<char>::empty(),
    }) + ".chat"@
}

/// Writing concatenated message logs is concatenating their lines.
pub proof fn lemma_messages_lines_append(a: Seq<MessageView>, b: Seq<MessageView>)
    ensures
        messages_lines(a + b) == messages_lines(a) + messages_lines(b),
    decreases a.len(),
{
    if a.len() == 0 {
        assert(a + b =~= b);
        assert(messages_lines(a) + messages_lines(b) =~= messages_lines(b));
    } else {
        lemma_messages_lines_append(a.skip(1), b);
        assert((a + b).skip(1) =~= a.skip(1) + b);
        assert((a + b)[0] == a[0]);
        assert(message_lines(a[0]) + (messages_lines(a.skip(1)) + messages_lines(b)) =~= (
        message_lines(a[0]) + messages_lines(a.skip(1))) + messages_lines(b));
    }
}

/// One document line: the tag, one space, the payload.
pub fn render_line(tag: &str, payload: &str) -> (r: String)
    ensures
        r@ == line_of(tag@, payload@),
{
    let mut r = tag.to_owned();
    r.append(" ");
    r.append(payload);
    proof {
        reveal_strlit(" ");
        assert(" "@ =~= seq![' ']);
        assert(r@ =~= line_of(tag@, payload@));
    }
    r
}

/// An optional text written as a line payload.
pub fn render_opt_str(o: &Option<String>) -> (r: String)
    ensures
        r@ == opt_payload(
            match o {
                Some(s) => Some(s@),
                None => None,
            },
        ),
{
    match o {
        None => {
            let r = "-".to_owned();
            proof {
                reveal_strlit("-");
                assert(r@ =~= seq!['-']);
            }
            r
        },
        Some(s) => {
            let mut r = "+".to_owned();
            let e = escape(s.as_str());
            r.append(e.as_str());
            proof {
                reveal_strlit("+");
                assert(r@ =~= seq!['+'] + esc(s@));
            }
            r
        },
    }
}

/// An optional number written as a line payload.
pub fn render_opt_num(o: Option<u32>) -> (r: String)
    ensures
        r@ == opt_num_payload(o),
{
    match o {
        None => {
            let r = "-".to_owned();
            proof {
                reveal_strlit("-");
                assert(r@ =~= seq!['-']);
            }
            r
        },
        Some(n) => {
            let mut r = "+".to_owned();
            let d = render_u64(n as u64);
            r.append(d.as_str());
            proof {
                reveal_strlit("+");
                assert(r@ =~= seq!['+'] + dec_digits(n as nat));
            }
            r
        },
    }
}

/// The payload of a line that starts with the given tag and a space.
pub fn strip_tag(l: &str, tag: &str) -> (r: Option<String>)
    ensures
        r matches Some(p) ==> tag_payload(l@, tag@) == Some(p@),
        r is None ==> tag_payload(l@, tag@) is None,
{
    let tn = tag.unicode_len();
    let ln = l.unicode_len();
    if ln <= tn {
        return None;
    }
    let mut i: usize = 0;
    while i < tn
        invariant
            tn == tag@.len(),
            ln == l@.len(),
            ln > tn,
            i <= tn,
            forall|j: int| 0 <= j < i ==> l@[j] == tag@[j],
        decreases tn - i,
    {
        if l.get_char(i) != tag.get_char(i) {
            proof {
                if l@.take(tn as int) == tag@ {
                    assert(l@.take(tn as int)[i as int] == l@[i as int]);
                }
            }
            return None;
        }
        i = i + 1;
    }
    proof {
        assert(l@.take(tn as int) =~= tag@);
    }
    if l.get_char(tn) != ' ' {
        return None;
    }
    let p = l.substring_char(tn + 1, ln);
    proof {
        assert(p@ =~= l@.skip(tn as int + 1));
    }
    Some(p.to_owned())
}

/// An optional text read back from a line payload.
pub fn parse_opt_str(p: &str) -> (r: Option<Option<String>>)
    ensures
        r matches Some(o) ==> parse_opt_payload(p@) == Some(
            match o {
                Some(s) => Some(s@),
                None => None::<Seq<char>>,
            },
        ),
        r is None ==> parse_opt_payload(p@) is None,
{
    let n = p.unicode_len();
    if n == 1 && p.get_char(0) == '-' {
        proof {
            assert(p@ =~= seq!['-']);
        }
        return Some(None);
    }
    if n >= 1 && p.get_char(0) == '+' {
        proof {
            assert(p@[0] == '+');
            if p@ == seq!['-'] {
                assert(p@[0] == '-');
            }
        }
        let rest = p.substring_char(1, n);
        proof {
            assert(rest@ =~= p@.skip(1));
        }
        match unescape(rest) {
            Some(s) => Some(Some(s)),
            None => None,
        }
    } else {
        proof {
            if p@ == seq!['-'] {
                assert(p@.len() == 1 && p@[0] == '-');
            }
        }
        None
    }
}

/// An optional number read back from a line payload.
pub fn parse_opt_num(p: &str) -> (r: Option<Option<u32>>)
    ensures
        r matches Some(o) ==> parse_opt_num_payload(p@) == Some(o),
        r is None ==> parse_opt_num_payload(p@) is None,
{
    let n = p.unicode_len();
    if n == 1 && p.get_char(0) == '-' {
        proof {
            assert(p@ =~= seq!['-']);
        }
        return Some(None);
    }
    if n >= 1 && p.get_char(0) == '+' {
        proof {
            assert(p@[0] == '+');
            if p@ == seq!['-'] {
                assert(p@[0] == '-');
            }
        }
        let rest = p.substring_char(1, n);
        proof {
            assert(rest@ =~= p@.skip(1));
        }
        match parse_u32(rest) {
            Some(v) => Some(Some(v)),
            None => None,
        }
    } else {
        proof {
            if p@ == seq!['-'] {
                assert(p@.len() == 1 && p@[0] == '-');
            }
        }
        None
    }
}

/// The names among a directory's entries that belong to regular files,
/// in the order the entries came.
pub open spec fn selected_files(es: Seq<(Seq<char>, bool)>) -> Seq<Seq<char>>
    decreases es.len(),
{
    if es.len() == 0 {
        Seq::empty()
    } else {
        selected_files(es.drop_last()) + (if es.last().1 {
            seq![es.last().0]
        } else {
            Seq::empty()
        })
    }
}

/// Keeps, in order, the names of the entries that are regular files —
/// the saved-conversation listing's selection rule. An empty entry list
/// gives an empty listing.
pub fn select_regular_files(entries: Vec<(String, bool)>) -> (r: Vec<String>)
    ensures
        r@.map_values(|s: String| s@) == selected_files(
            entries@.map_values(|e: (String, bool)| (e.0@, e.1)),
        ),
{
    let ghost es = entries@.map_values(|e: (String, bool)| (e.0@, e.1));
    let mut r: Vec<String> = Vec::new();
    let mut i: usize = 0;
    proof {
        assert(es.take(0) =~= Seq::<(Seq<char>, bool)>::empty());
        assert(r@.map_values(|s: String| s@) =~= selected_files(es.take(0)));
    }
    while i < entries.len()
        invariant
            i <= entries@.len(),
            es == entries@.map_values(|e: (String, bool)| (e.0@, e.1)),
            r@.map_values(|s: String| s@) == selected_files(es.take(i as int)),
        decreases entries@.len() - i,
    {
        let ghost before = r@.map_values(|s: String| s@);
        if entries[i].1 {
            r.push(entries[i].0.clone());
            proof {
                assert(r@.map_values(|s: String| s@) =~= before + seq![es[i as int].0]);
            }
        }
        proof {
            assert(es.take(i + 1 as int).drop_last() =~= es.take(i as int));
            assert(es.take(i + 1 as int).last() == es[i as int]);
        }
        i = i + 1;
    }
    proof {
        assert(es.take(entries@.len() as int) =~= es);
    }
    r
}

/// The role a payload string denotes, when it is one of the three
/// labels.
pub fn parse_role_str(p: &String) -> (r: Option<Role>)
    ensures
        r matches Some(role) ==> parse_role_payload(p@) == Some(role),
        r is None ==> parse_role_payload(p@) is None,
{
    let sys: String = "system".to_owned();
    let usr: String = "user".to_owned();
    let ast: String = "assistant".to_owned();
    if *p == sys {
        Some(Role::System)
    } else if *p == usr {
        Some(Role::User)
    } else if *p == ast {
        Some(Role::Assistant)
    } else {
        None
    }
}

} // verus!
