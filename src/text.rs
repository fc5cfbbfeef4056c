//! Text helpers: the characters of strings, building strings, decimal
//! numerals, and cutting text at a separator.
use vstd::prelude::*;
use vstd::string::*;

verus! {

/// The Unicode lowercase of a string, as `str::to_lowercase` gives it.
pub uninterp spec fn lower_of(s: Seq<char>) -> Seq<char>;

/// `d` is `c` lowered by the ASCII rule: `A`..`Z` become `a`..`z`, every
/// other character stays.
pub open spec fn ascii_lowered(c: char, d: char) -> bool {
    if 'A' <= c && c <= 'Z' {
        d as u32 == c as u32 + 32
    } else {
        d == c
    }
}

/// Relies on `str::to_lowercase`: the lowercase of `s`, which on ASCII text
/// lowers `A`..`Z` one for one and keeps every other character.
#[verifier::external_body]
pub(crate) fn to_lowercase(s: &str) -> (r: String)
    ensures
        r@ == lower_of(s@),
        (forall|i: int| 0 <= i < s@.len() ==> (s@[i] as u32) < 128) ==> r@.len() == s@.len(),
        (forall|i: int| 0 <= i < s@.len() ==> (s@[i] as u32) < 128) ==> forall|i: int|
            0 <= i < s@.len() ==> ascii_lowered(s@[i], #[trigger] r@[i]),
{
    s.to_lowercase()
}

/// The characters of `s`, in order.
pub fn chars_of(s: &str) -> (r: Vec<char>)
    ensures
        r@ == s@,
{
    let mut out: Vec<char> = Vec::new();
    for c in it: s.chars()
        invariant
            it.seq() == s@,
            out@ == it.seq().subrange(0, it.index() as int),
    {
        out.push(c);
    }
    out
}

/// Relies on `String::push`: appends one character.
#[verifier::external_body]
pub(crate) fn push_char(s: &mut String, c: char)
    ensures
        final(s)@ == old(s)@.push(c),
{
    s.push(c);
}

/// The string made of the characters `cs[from..to]`.
pub fn string_of(cs: &Vec<char>, from: usize, to: usize) -> (r: String)
    requires
        from <= to <= cs.len(),
    ensures
        r@ == cs@.subrange(from as int, to as int),
{
    let mut out = String::new();
    let mut i: usize = from;
    while i < to
        invariant
            from <= i <= to <= cs.len(),
            out@ == cs@.subrange(from as int, i as int),
        decreases to - i,
    {
        push_char(&mut out, cs[i]);
        i = i + 1;
        assert(out@ =~= cs@.subrange(from as int, i as int));
    }
    out
}

/// `a` followed by `b`.
pub fn concat(a: &str, b: &str) -> (r: String)
    ensures
        r@ == a@ + b@,
{
    let mut s = String::from_str(a);
    s.append(b);
    s
}

/// The decimal digit for `d`.
pub open spec fn digit_char(d: nat) -> char {
    if d == 0 { '0' }
    else if d == 1 { '1' }
    else if d == 2 { '2' }
    else if d == 3 { '3' }
    else if d == 4 { '4' }
    else if d == 5 { '5' }
    else if d == 6 { '6' }
    else if d == 7 { '7' }
    else if d == 8 { '8' }
    else { '9' }
}

/// `n` written in decimal, without leading zeros.
pub open spec fn decimal(n: nat) -> Seq<char>
    decreases n,
{
    if n < 10 {
        seq![digit_char(n)]
    } else {
        decimal(n / 10).push(digit_char(n % 10))
    }
}

fn digit_of(d: usize) -> (c: char)
    requires
        d < 10,
    ensures
        c == digit_char(d as nat),
{
    if d == 0 { '0' }
    else if d == 1 { '1' }
    else if d == 2 { '2' }
    else if d == 3 { '3' }
    else if d == 4 { '4' }
    else if d == 5 { '5' }
    else if d == 6 { '6' }
    else if d == 7 { '7' }
    else if d == 8 { '8' }
    else { '9' }
}

/// Writes `n` in decimal.
pub fn decimal_string(n: usize) -> (r: String)
    ensures
        r@ == decimal(n as nat),
    decreases n,
{
    if n < 10 {
        let mut s = String::new();
        push_char(&mut s, digit_of(n));
        assert(s@ =~= decimal(n as nat));
        s
    } else {
        let mut s = decimal_string(n / 10);
        push_char(&mut s, digit_of(n % 10));
        s
    }
}


pub open spec fn is_digit(c: char) -> bool {
    '0' <= c && c <= '9'
}

/// The value of a decimal digit.
pub open spec fn digit_value(c: char) -> nat {
    if c == '1' { 1 }
    else if c == '2' { 2 }
    else if c == '3' { 3 }
    else if c == '4' { 4 }
    else if c == '5' { 5 }
    else if c == '6' { 6 }
    else if c == '7' { 7 }
    else if c == '8' { 8 }
    else if c == '9' { 9 }
    else { 0 }
}

/// The value of a string of decimal digits.
pub open spec fn digits_value(s: Seq<char>) -> nat
    decreases s.len(),
{
    if s.len() == 0 {
        0
    } else {
        digits_value(s.drop_last()) * 10 + digit_value(s.last())
    }
}

/// The number that a decimal numeral stands for, as `str::parse` reads an
/// unsigned integer: an optional `+`, then one or more ASCII digits.
pub open spec fn numeral(s: Seq<char>) -> Option<nat> {
    let d = if s.len() > 0 && s[0] == '+' {
        s.drop_first()
    } else {
        s
    };
    if d.len() > 0 && forall|i: int| 0 <= i < d.len() ==> is_digit(#[trigger] d[i]) {
        Some(digits_value(d))
    } else {
        None
    }
}

/// Relies on `u64::from_str`: a numeral's value where it fits in a `u64`,
/// an error otherwise, described by the error's message.
#[verifier::external_body]
pub(crate) fn parse_u64(s: &str) -> (r: Result<u64, String>)
    ensures
        r is Ok <==> (numeral(s@) is Some && numeral(s@)->0 <= u64::MAX),
        r is Ok ==> r->Ok_0 == numeral(s@)->0,
{
    s.parse::<u64>().map_err(|e| e.to_string())
}

/// Relies on `u32::from_str`: a numeral's value where it fits in a `u32`,
/// none otherwise.
#[verifier::external_body]
pub(crate) fn parse_u32(s: &str) -> (r: Option<u32>)
    ensures
        r is Some <==> (numeral(s@) is Some && numeral(s@)->0 <= u32::MAX),
        r is Some ==> r->0 == numeral(s@)->0,
{
    s.parse::<u32>().ok()
}


/// `s` cut at every `c`: the pieces between separators, empty ones included.
pub open spec fn split_on(s: Seq<char>, c: char) -> Seq<Seq<char>>
    decreases s.len(),
{
    if s.len() == 0 {
        seq![Seq::<char>::empty()]
    } else {
        let rest = split_on(s.drop_last(), c);
        if s.last() == c {
            rest.push(Seq::<char>::empty())
        } else {
            rest.update(rest.len() - 1, rest.last().push(s.last()))
        }
    }
}

/// The pieces joined again with `c` between them.
pub open spec fn join_on(parts: Seq<Seq<char>>, c: char) -> Seq<char>
    decreases parts.len(),
{
    if parts.len() == 0 {
        Seq::<char>::empty()
    } else if parts.len() == 1 {
        parts[0]
    } else {
        join_on(parts.drop_last(), c).push(c) + parts.last()
    }
}

pub proof fn lemma_split_len(s: Seq<char>, c: char)
    ensures
        split_on(s, c).len() >= 1,
    decreases s.len(),
{
    if s.len() > 0 {
        lemma_split_len(s.drop_last(), c);
    }
}

/// Splitting loses nothing: the pieces hold no separator and join back to
/// the string.
pub proof fn lemma_split_join(s: Seq<char>, c: char)
    ensures
        join_on(split_on(s, c), c) == s,
        forall|i: int| 0 <= i < split_on(s, c).len() ==> !(#[trigger] split_on(s, c)[i]).contains(c),
    decreases s.len(),
{
    lemma_split_len(s, c);
    if s.len() == 0 {
        assert(split_on(s, c)[0] =~= Seq::<char>::empty());
        assert(s =~= Seq::<char>::empty());
    } else {
        let t = s.drop_last();
        let rest = split_on(t, c);
        lemma_split_join(t, c);
        lemma_split_len(t, c);
        let parts = split_on(s, c);
        if s.last() == c {
            assert(parts.drop_last() =~= rest);
            assert(s =~= t.push(c) + Seq::<char>::empty());
            assert forall|i: int| 0 <= i < parts.len() implies !(#[trigger] parts[i]).contains(c) by {
                if i < rest.len() {
                    assert(parts[i] == rest[i]);
                }
            }
        } else {
            let n = rest.len() - 1;
            assert forall|i: int| 0 <= i < parts.len() implies !(#[trigger] parts[i]).contains(c) by {
                if i < n {
                    assert(parts[i] == rest[i]);
                } else {
                    assert(!rest[n].contains(c));
                    assert forall|j: int| 0 <= j < parts[i].len() implies parts[i][j] != c by {
                        if j < rest[n].len() {
                            assert(parts[i][j] == rest[n][j]);
                        }
                    }
                }
            }
            if rest.len() == 1 {
                assert(rest[0] =~= t);
                assert(parts[0] =~= s);
            } else {
                assert(parts.drop_last() =~= rest.drop_last());
                assert(join_on(rest, c) == join_on(rest.drop_last(), c).push(c) + rest.last());
                assert(parts.last() == rest.last().push(s.last()));
                assert(s =~= t.push(s.last()));
                assert(s =~= join_on(parts.drop_last(), c).push(c) + parts.last());
            }
        }
    }
}

/// A string with no separator is one piece.
pub proof fn lemma_split_single(t: Seq<char>, c: char)
    requires
        !t.contains(c),
    ensures
        split_on(t, c) == seq![t],
    decreases t.len(),
{
    if t.len() > 0 {
        let u = t.drop_last();
        assert(!u.contains(c)) by {
            assert forall|j: int| 0 <= j < u.len() implies u[j] != c by {
                assert(u[j] == t[j]);
            }
        }
        assert(t.last() != c) by {
            assert(t[t.len() - 1] == t.last());
        }
        lemma_split_single(u, c);
        assert(u.push(t.last()) =~= t);
        assert(split_on(t, c) =~= seq![t]);
    } else {
        assert(t =~= Seq::<char>::empty());
    }
}

/// Appending a separator and a piece with no separator appends that piece.
pub proof fn lemma_split_append(a: Seq<char>, b: Seq<char>, c: char)
    requires
        !b.contains(c),
    ensures
        split_on(a.push(c) + b, c) == split_on(a, c).push(b),
    decreases b.len(),
{
    let s = a.push(c) + b;
    if b.len() == 0 {
        assert(s =~= a.push(c));
        assert(s.drop_last() =~= a);
        assert(b =~= Seq::<char>::empty());
    } else {
        let b1 = b.drop_last();
        assert(!b1.contains(c)) by {
            assert forall|j: int| 0 <= j < b1.len() implies b1[j] != c by {
                assert(b1[j] == b[j]);
            }
        }
        assert(b.last() != c) by {
            assert(b[b.len() - 1] == b.last());
        }
        lemma_split_append(a, b1, c);
        assert(s.drop_last() =~= a.push(c) + b1);
        assert(s.last() == b.last());
        assert(b1.push(b.last()) =~= b);
        assert(split_on(s, c) =~= split_on(a, c).push(b));
    }
}

/// `cs` cut at every `sep`.
pub fn split_chars(cs: &Vec<char>, sep: char) -> (r: Vec<Vec<char>>)
    ensures
        r@.len() == split_on(cs@, sep).len(),
        forall|j: int| 0 <= j < r@.len() ==> (#[trigger] r@[j])@ == split_on(cs@, sep)[j],
{
    let ghost s = cs@;
    let mut parts: Vec<Vec<char>> = Vec::new();
    parts.push(Vec::new());
    let mut i: usize = 0;
    while i < cs.len()
        invariant
            cs@ == s,
            i <= cs.len(),
            parts@.len() >= 1,
            parts@.map_values(|v: Vec<char>| v@) == split_on(s.subrange(0, i as int), sep),
        decreases cs.len() - i,
    {
        let ghost before = parts@.map_values(|v: Vec<char>| v@);
        let c = cs[i];
        assert(s.subrange(0, i + 1).drop_last() =~= s.subrange(0, i as int));
        if c == sep {
            parts.push(Vec::new());
            assert(parts@.map_values(|v: Vec<char>| v@) =~= before.push(Seq::<char>::empty()));
        } else {
            let last = parts.len() - 1;
            let mut piece = parts.remove(last);
            piece.push(c);
            parts.push(piece);
            assert(parts@.map_values(|v: Vec<char>| v@) =~= before.update(before.len() - 1, before.last().push(c)));
        }
        i = i + 1;
    }
    assert(s.subrange(0, cs.len() as int) =~= s);
    let ghost split = split_on(s, sep);
    assert(forall|j: int| 0 <= j < parts.len() ==> (#[trigger] parts@[j])@ == split[j]);
    parts
}

} // verus!
