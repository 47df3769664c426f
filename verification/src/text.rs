//! Small verified text-building blocks used by both layouts: runs of spaces,
//! decimal rendering of integers, dotted-path splitting, and lexicographic
//! comparison of strings (used to order map keys deterministically).

use vstd::prelude::*;
use vstd::string::StrSliceExecFns;
use vstd::string::StringExecFns;

verus! {

/// A run of `n` spaces.
pub open spec fn spaces(n: nat) -> Seq<char> {
    Seq::new(n, |i: int| ' ')
}

/// Append `n` spaces to `out`.
pub fn push_spaces(out: &mut String, n: usize)
    ensures
        final(out)@ == old(out)@ + spaces(n as nat),
{
    let mut i: usize = 0;
    proof {
        reveal_strlit(" ");
        assert(old(out)@ + spaces(0) =~= old(out)@);
    }
    while i < n
        invariant
            i <= n,
            out@ == old(out)@ + spaces(i as nat),
        decreases n - i,
    {
        out.append(" ");
        proof {
            reveal_strlit(" ");
            assert(old(out)@ + spaces(i as nat) + " "@ =~= old(out)@ + spaces((i + 1) as nat));
        }
        i = i + 1;
    }
}

/// The character for one decimal digit.
pub open spec fn digit_char(d: nat) -> char {
    if d == 0 {
        '0'
    } else if d == 1 {
        '1'
    } else if d == 2 {
        '2'
    } else if d == 3 {
        '3'
    } else if d == 4 {
        '4'
    } else if d == 5 {
        '5'
    } else if d == 6 {
        '6'
    } else if d == 7 {
        '7'
    } else if d == 8 {
        '8'
    } else {
        '9'
    }
}

/// Decimal representation of a natural number, most significant digit first.
pub open spec fn dec_text(n: nat) -> Seq<char>
    decreases n,
{
    if n < 10 {
        seq![digit_char(n)]
    } else {
        dec_text(n / 10) + seq![digit_char(n % 10)]
    }
}

/// Decimal representation of an integer, with a leading minus sign when
/// negative.
pub open spec fn int_text(i: int) -> Seq<char> {
    if i < 0 {
        seq!['-'] + dec_text((-i) as nat)
    } else {
        dec_text(i as nat)
    }
}

fn push_digit(out: &mut String, d: u64)
    requires
        d < 10,
    ensures
        final(out)@ == old(out)@ + seq![digit_char(d as nat)],
{
    let s: &str = if d == 0 {
        "0"
    } else if d == 1 {
        "1"
    } else if d == 2 {
        "2"
    } else if d == 3 {
        "3"
    } else if d == 4 {
        "4"
    } else if d == 5 {
        "5"
    } else if d == 6 {
        "6"
    } else if d == 7 {
        "7"
    } else if d == 8 {
        "8"
    } else {
        "9"
    };
    proof {
        reveal_strlit("0");
        reveal_strlit("1");
        reveal_strlit("2");
        reveal_strlit("3");
        reveal_strlit("4");
        reveal_strlit("5");
        reveal_strlit("6");
        reveal_strlit("7");
        reveal_strlit("8");
        reveal_strlit("9");
        assert(s@ =~= seq![digit_char(d as nat)]);
    }
    out.append(s);
}

/// Append the decimal form of `n` to `out`.
pub fn push_u64(out: &mut String, n: u64)
    ensures
        final(out)@ == old(out)@ + dec_text(n as nat),
    decreases n,
{
    if n >= 10 {
        push_u64(out, n / 10);
    }
    push_digit(out, n % 10);
    proof {
        if n < 10 {
            assert(old(out)@ + seq![digit_char((n % 10) as nat)] =~= old(out)@ + dec_text(
                n as nat,
            ));
        } else {
            assert(old(out)@ + dec_text((n / 10) as nat) + seq![digit_char((n % 10) as nat)]
                =~= old(out)@ + dec_text(n as nat));
        }
    }
}

/// Append the decimal form of `i`, sign included, to `out`.
pub fn push_i64(out: &mut String, i: i64)
    ensures
        final(out)@ == old(out)@ + int_text(i as int),
{
    if i < 0 {
        proof {
            reveal_strlit("-");
        }
        out.append("-");
        let m: u64 = if i == i64::MIN {
            9223372036854775808u64
        } else {
            (-i) as u64
        };
        assert(m as nat == (-(i as int)) as nat);
        push_u64(out, m);
        proof {
            assert(old(out)@ + "-"@ + dec_text(m as nat) =~= old(out)@ + int_text(i as int));
        }
    } else {
        push_u64(out, i as u64);
    }
}

/// The decimal form of `n` as a fresh string.
pub fn u64_string(n: u64) -> (r: String)
    ensures
        r@ == dec_text(n as nat),
{
    let mut out = String::new();
    push_u64(&mut out, n);
    proof {
        assert(Seq::<char>::empty() + dec_text(n as nat) =~= dec_text(n as nat));
    }
    out
}

/// The decimal form of `i`, sign included, as a fresh string.
pub fn i64_string(i: i64) -> (r: String)
    ensures
        r@ == int_text(i as int),
{
    let mut out = String::new();
    push_i64(&mut out, i);
    proof {
        assert(Seq::<char>::empty() + int_text(i as int) =~= int_text(i as int));
    }
    out
}

/// `i` is the position of the first dot in `s`.
pub open spec fn first_dot_at(s: Seq<char>, i: int) -> bool {
    &&& 0 <= i < s.len()
    &&& s[i] == '.'
    &&& forall|j: int| 0 <= j < i ==> s[j] != '.'
}

/// `s` holds no dot at all.
pub open spec fn dotless(s: Seq<char>) -> bool {
    forall|j: int| 0 <= j < s.len() ==> s[j] != '.'
}

/// The head of a path: everything before the first dot, or the whole path
/// when it has none.
pub open spec fn path_head(s: Seq<char>) -> Seq<char> {
    if exists|i: int| first_dot_at(s, i) {
        s.subrange(0, choose|i: int| first_dot_at(s, i))
    } else {
        s
    }
}

/// The tail of a path: everything after the first dot, or empty when it has
/// none.
pub open spec fn path_tail(s: Seq<char>) -> Seq<char> {
    if exists|i: int| first_dot_at(s, i) {
        s.subrange((choose|i: int| first_dot_at(s, i)) + 1, s.len() as int)
    } else {
        Seq::empty()
    }
}

/// A first-dot position is unique, so `path_head`/`path_tail` are pinned by
/// any witness.
pub proof fn lemma_first_dot_unique(s: Seq<char>, i: int, j: int)
    requires
        first_dot_at(s, i),
        first_dot_at(s, j),
    ensures
        i == j,
{
    if i < j {
        assert(s[i] == '.');
    } else if j < i {
        assert(s[j] == '.');
    }
}

/// Split a field path at its first dot: the local field name, and the rest of
/// the path to resolve inside that field.
pub fn get_keys(field_name: &str) -> (r: (&str, &str))
    ensures
        r.0@ == path_head(field_name@),
        r.1@ == path_tail(field_name@),
{
    let n = field_name.unicode_len();
    let mut i: usize = 0;
    while i < n
        invariant
            0 <= i <= n,
            n == field_name@.len(),
            forall|j: int| 0 <= j < i ==> field_name@[j] != '.',
        decreases n - i,
    {
        if field_name.get_char(i) == '.' {
            let head = field_name.substring_char(0, i);
            let tail = field_name.substring_char(i + 1, n);
            proof {
                assert(first_dot_at(field_name@, i as int));
                let w = choose|k: int| first_dot_at(field_name@, k);
                lemma_first_dot_unique(field_name@, i as int, w);
            }
            return (head, tail);
        }
        i = i + 1;
    }
    proof {
        assert(dotless(field_name@));
        assert(forall|k: int| !first_dot_at(field_name@, k));
        reveal_strlit("");
        assert(""@ =~= Seq::<char>::empty());
    }
    (field_name, "")
}

/// Lexicographic "strictly less" on character sequences, by code point.
pub open spec fn lex_lt(a: Seq<char>, b: Seq<char>) -> bool
    decreases a.len(),
{
    if b.len() == 0 {
        false
    } else if a.len() == 0 {
        true
    } else if a[0] != b[0] {
        (a[0] as u32) < (b[0] as u32)
    } else {
        lex_lt(a.drop_first(), b.drop_first())
    }
}

/// Whether a text holds no dot.
pub fn is_dotless(s: &str) -> (r: bool)
    ensures
        r == dotless(s@),
{
    let n = s.unicode_len();
    let mut i: usize = 0;
    while i < n
        invariant
            0 <= i <= n,
            n == s@.len(),
            forall|j: int| 0 <= j < i ==> s@[j] != '.',
        decreases n - i,
    {
        if s.get_char(i) == '.' {
            return false;
        }
        i = i + 1;
    }
    true
}

/// Whether two texts hold the same characters.
pub fn str_eq(a: &str, b: &str) -> (r: bool)
    ensures
        r == (a@ == b@),
{
    let sa = a.to_owned();
    let sb = b.to_owned();
    sa == sb
}

/// Lexicographic order is irreflexive.
pub proof fn lemma_lex_lt_irrefl(a: Seq<char>)
    ensures
        !lex_lt(a, a),
    decreases a.len(),
{
    if a.len() > 0 {
        lemma_lex_lt_irrefl(a.drop_first());
    }
}

/// Lexicographic order is transitive.
pub proof fn lemma_lex_lt_trans(a: Seq<char>, b: Seq<char>, c: Seq<char>)
    requires
        lex_lt(a, b),
        lex_lt(b, c),
    ensures
        lex_lt(a, c),
    decreases a.len(),
{
    if c.len() == 0 || a.len() == 0 {
    } else if b.len() == 0 {
    } else {
        if a[0] != b[0] {
            if b[0] != c[0] {
            } else {
            }
        } else if b[0] != c[0] {
        } else {
            lemma_lex_lt_trans(a.drop_first(), b.drop_first(), c.drop_first());
        }
    }
}

/// Two sequences that neither precede nor follow one another are equal.
pub proof fn lemma_lex_lt_connected(a: Seq<char>, b: Seq<char>)
    requires
        !lex_lt(a, b),
        !lex_lt(b, a),
    ensures
        a == b,
    decreases a.len(),
{
    if a.len() == 0 && b.len() == 0 {
        assert(a =~= b);
    } else if a.len() == 0 {
    } else if b.len() == 0 {
    } else {
        if a[0] != b[0] {
            assert((a[0] as u32) != (b[0] as u32)) by {
                if a[0] as u32 == b[0] as u32 {
                    vstd::utf8::char_u32_cast(a[0], a[0] as u32);
                    vstd::utf8::char_u32_cast(b[0], b[0] as u32);
                }
            }
        } else {
            lemma_lex_lt_connected(a.drop_first(), b.drop_first());
            assert(a =~= seq![a[0]] + a.drop_first());
            assert(b =~= seq![b[0]] + b.drop_first());
        }
    }
}

/// Compare two strings lexicographically by character.
pub fn str_lex_lt(a: &str, b: &str) -> (r: bool)
    ensures
        r == lex_lt(a@, b@),
{
    let an = a.unicode_len();
    let bn = b.unicode_len();
    let mut i: usize = 0;
    proof {
        assert(a@.subrange(0, an as int) =~= a@);
        assert(b@.subrange(0, bn as int) =~= b@);
    }
    loop
        invariant
            0 <= i <= an,
            0 <= i <= bn,
            an == a@.len(),
            bn == b@.len(),
            forall|j: int| 0 <= j < i ==> a@[j] == b@[j],
            lex_lt(a@, b@) == lex_lt(a@.subrange(i as int, an as int), b@.subrange(
                i as int,
                bn as int,
            )),
        decreases an - i,
    {
        if i >= bn {
            proof {
                assert(b@.subrange(i as int, bn as int).len() == 0);
            }
            return false;
        }
        if i >= an {
            proof {
                assert(a@.subrange(i as int, an as int).len() == 0);
                assert(b@.subrange(i as int, bn as int).len() > 0);
            }
            return true;
        }
        let ca = a.get_char(i);
        let cb = b.get_char(i);
        if ca != cb {
            proof {
                let sa = a@.subrange(i as int, an as int);
                let sb = b@.subrange(i as int, bn as int);
                assert(sa[0] == a@[i as int]);
                assert(sb[0] == b@[i as int]);
            }
            return (ca as u32) < (cb as u32);
        }
        proof {
            let sa = a@.subrange(i as int, an as int);
            let sb = b@.subrange(i as int, bn as int);
            assert(sa[0] == sb[0]);
            assert(sa.drop_first() =~= a@.subrange(i + 1 as int, an as int));
            assert(sb.drop_first() =~= b@.subrange(i + 1 as int, bn as int));
        }
        i = i + 1;
    }
}


} // verus!
