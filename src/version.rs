//! Release versions: reading `x.y.z`, finding a version line in a
//! manifest, and rewriting version lines.
use vstd::prelude::*;
use crate::labels::compare_keys;
use crate::text::{chars_of, join_on, numeral, parse_u32, split_chars, split_on, string_of};
use vstd::string::*;

verus! {

/// A version `x.y.z`: three numerals separated by dots, each fitting a `u32`.
pub open spec fn semver_spec(v: Seq<char>) -> Option<(u32, u32, u32)> {
    let parts = split_on(v, '.');
    if parts.len() == 3 && numeral(parts[0]) is Some && numeral(parts[0])->0 <= u32::MAX
        && numeral(parts[1]) is Some && numeral(parts[1])->0 <= u32::MAX
        && numeral(parts[2]) is Some && numeral(parts[2])->0 <= u32::MAX {
        Some((numeral(parts[0])->0 as u32, numeral(parts[1])->0 as u32, numeral(parts[2])->0 as u32))
    } else {
        None
    }
}

/// Parses a version `x.y.z`.
pub fn parse_semver(v: &str) -> (r: Option<(u32, u32, u32)>)
    ensures
        r == semver_spec(v@),
{
    let cs = chars_of(v);
    let parts = split_chars(&cs, '.');
    if parts.len() != 3 {
        return None;
    }
    assert(parts@[0]@ =~= parts@[0]@.subrange(0, parts@[0].len() as int));
    assert(parts@[1]@ =~= parts@[1]@.subrange(0, parts@[1].len() as int));
    assert(parts@[2]@ =~= parts@[2]@.subrange(0, parts@[2].len() as int));
    let a = parse_u32(string_of(&parts[0], 0, parts[0].len()).as_str())?;
    let b = parse_u32(string_of(&parts[1], 0, parts[1].len()).as_str())?;
    let c = parse_u32(string_of(&parts[2], 0, parts[2].len()).as_str())?;
    Some((a, b, c))
}

/// A string without surrounding whitespace, as `str::trim` gives it.
pub uninterp spec fn trim_of(s: Seq<char>) -> Seq<char>;

/// Relies on `str::trim`: `s` without leading and trailing whitespace.
#[verifier::external_body]
fn trim(s: &str) -> (r: String)
    ensures
        r@ == trim_of(s@),
{
    s.trim().to_string()
}

/// `s` without its leading characters `c`.
pub open spec fn drop_leading(s: Seq<char>, c: char) -> Seq<char>
    decreases s.len(),
{
    if s.len() > 0 && s[0] == c {
        drop_leading(s.drop_first(), c)
    } else {
        s
    }
}

/// `s` without its trailing characters `c`.
pub open spec fn drop_trailing(s: Seq<char>, c: char) -> Seq<char>
    decreases s.len(),
{
    if s.len() > 0 && s.last() == c {
        drop_trailing(s.drop_last(), c)
    } else {
        s
    }
}

/// `s` without quotes at either end.
pub open spec fn unquoted(s: Seq<char>) -> Seq<char> {
    drop_trailing(drop_leading(s, '"'), '"')
}

/// A line without the `\r` of a `\r\n` ending.
pub open spec fn without_cr(l: Seq<char>) -> Seq<char> {
    if l.len() > 0 && l.last() == '\r' {
        l.drop_last()
    } else {
        l
    }
}

/// The lines of a text: cut at each `\n`, a `\r` before it dropped; the
/// text after the last `\n` is a line only if it is not empty.
pub open spec fn lines_of(s: Seq<char>) -> Seq<Seq<char>> {
    let parts = split_on(s, '\n');
    let ended = Seq::new((parts.len() - 1) as nat, |i: int| without_cr(parts[i]));
    if parts.last().len() > 0 {
        ended.push(parts.last())
    } else {
        ended
    }
}

/// The version on a line that starts with `prefix` once trimmed: the rest
/// of the line, trimmed and unquoted.
pub open spec fn line_version(line: Seq<char>, prefix: Seq<char>) -> Option<Seq<char>> {
    match after_prefix(trim_of(line), prefix) {
        Some(rest) => Some(unquoted(trim_of(rest))),
        None => None,
    }
}

/// The version on the first of `lines` that has one.
pub open spec fn first_version(lines: Seq<Seq<char>>, prefix: Seq<char>) -> Option<Seq<char>>
    decreases lines.len(),
{
    if lines.len() == 0 {
        None
    } else {
        match line_version(lines[0], prefix) {
            Some(v) => Some(v),
            None => first_version(lines.drop_first(), prefix),
        }
    }
}

fn without_cr_exec(l: &Vec<char>) -> (r: Vec<char>)
    ensures
        r@ == without_cr(l@),
{
    let mut r = l.clone();
    assert(r@ == l@);
    if r.len() > 0 && r[r.len() - 1] == '\r' {
        r.pop();
    }
    r
}

fn lines(content: &str) -> (r: Vec<Vec<char>>)
    ensures
        r@.len() == lines_of(content@).len(),
        forall|i: int| 0 <= i < r@.len() ==> (#[trigger] r@[i])@ == lines_of(content@)[i],
{
    let cs = chars_of(content);
    let parts = split_chars(&cs, '\n');
    proof {
        crate::text::lemma_split_len(content@, '\n');
    }
    let ghost want = lines_of(content@);
    let mut out: Vec<Vec<char>> = Vec::new();
    let mut i: usize = 0;
    while i < parts.len() - 1
        invariant
            parts@.len() == split_on(content@, '\n').len(),
            parts@.len() >= 1,
            forall|j: int| 0 <= j < parts@.len() ==> (#[trigger] parts@[j])@ == split_on(content@, '\n')[j],
            i + 1 <= parts@.len(),
            out@.len() == i,
            forall|j: int| 0 <= j < i ==> (#[trigger] out@[j])@ == without_cr(split_on(content@, '\n')[j]),
        decreases parts@.len() - i,
    {
        out.push(without_cr_exec(&parts[i]));
        i = i + 1;
    }
    let last = parts.len() - 1;
    if parts[last].len() > 0 {
        out.push(parts[last].clone());
    }
    out
}

/// Drops leading and trailing `"` from `cs`.
fn unquote(cs: &Vec<char>) -> (r: Vec<char>)
    ensures
        r@ == unquoted(cs@),
{
    let mut from: usize = 0;
    assert(cs@.subrange(0, cs@.len() as int) =~= cs@);
    while from < cs.len() && cs[from] == '"'
        invariant
            from <= cs.len(),
            drop_leading(cs@, '"') == drop_leading(cs@.subrange(from as int, cs@.len() as int), '"'),
        decreases cs.len() - from,
    {
        assert(cs@.subrange(from as int, cs@.len() as int).drop_first() =~= cs@.subrange(from + 1, cs@.len() as int));
        from = from + 1;
    }
    let ghost lead = cs@.subrange(from as int, cs@.len() as int);
    assert(drop_leading(cs@, '"') == lead);
    let mut to: usize = cs.len();
    while to > from && cs[to - 1] == '"'
        invariant
            from <= to <= cs.len(),
            lead == cs@.subrange(from as int, cs@.len() as int),
            drop_trailing(lead, '"') == drop_trailing(cs@.subrange(from as int, to as int), '"'),
        decreases to,
    {
        assert(cs@.subrange(from as int, to as int).drop_last() =~= cs@.subrange(from as int, to - 1));
        to = to - 1;
    }
    let mut r: Vec<char> = Vec::new();
    let mut k: usize = from;
    while k < to
        invariant
            from <= k <= to <= cs.len(),
            r@ == cs@.subrange(from as int, k as int),
        decreases to - k,
    {
        r.push(cs[k]);
        k = k + 1;
        assert(r@ =~= cs@.subrange(from as int, k as int));
    }
    r
}

/// What follows `prefix` in `s`, if `s` starts with it.
pub open spec fn after_prefix(s: Seq<char>, prefix: Seq<char>) -> Option<Seq<char>> {
    if prefix.len() <= s.len() && s.subrange(0, prefix.len() as int) == prefix {
        Some(s.subrange(prefix.len() as int, s.len() as int))
    } else {
        None
    }
}

/// What follows `prefix` in a trimmed line; `None` if the line does not
/// start with it.
pub fn value_after_prefix(trimmed: &str, prefix: &str) -> (r: Option<String>)
    ensures
        match after_prefix(trimmed@, prefix@) {
            Some(v) => r is Some && r->0@ == v,
            None => r is None,
        },
{
    let t = chars_of(trimmed);
    let pc = chars_of(prefix);
    if pc.len() <= t.len() {
        let head = chars_of(string_of(&t, 0, pc.len()).as_str());
        if compare_keys(&head, &pc) == 0 {
            return Some(string_of(&t, pc.len(), t.len()));
        }
    }
    None
}

/// A trimmed value without quotes at either end.
pub fn unquote_str(s: &str) -> (r: String)
    ensures
        r@ == unquoted(s@),
{
    let u = unquote(&chars_of(s));
    let r = string_of(&u, 0, u.len());
    assert(r@ =~= u@);
    r
}

/// The version that a manifest states on its first line that starts with
/// `prefix` (leading whitespace aside): the rest of that line, trimmed and
/// unquoted.
pub fn extract_version(content: &str, prefix: &str) -> (r: Option<String>)
    ensures
        match first_version(lines_of(content@), prefix@) {
            Some(v) => r is Some && r->0@ == v,
            None => r is None,
        },
{
    let ls = lines(content);
    let ghost all = lines_of(content@);
    let mut i: usize = 0;
    assert(all.subrange(0, all.len() as int) =~= all);
    while i < ls.len()
        invariant
            all == lines_of(content@),
            ls@.len() == all.len(),
            forall|j: int| 0 <= j < ls@.len() ==> (#[trigger] ls@[j])@ == all[j],
            i <= ls@.len(),
            first_version(all, prefix@) == first_version(all.subrange(i as int, all.len() as int), prefix@),
        decreases ls.len() - i,
    {
        let ghost rest_lines = all.subrange(i as int, all.len() as int);
        assert(rest_lines[0] == all[i as int]);
        assert(rest_lines.drop_first() =~= all.subrange(i + 1, all.len() as int));
        let line = string_of(&ls[i], 0, ls[i].len());
        assert(line@ =~= all[i as int]);
        let t = trim(line.as_str());
        if let Some(rest) = value_after_prefix(t.as_str(), prefix) {
            let found = unquote_str(trim(rest.as_str()).as_str());
            assert(line_version(all[i as int], prefix@) == Some(found@));
            assert(first_version(rest_lines, prefix@) == Some(found@));
            return Some(found);
        }
        assert(line_version(all[i as int], prefix@) is None);
        i = i + 1;
    }
    None
}

/// A string without leading whitespace, as `str::trim_start` gives it.
pub uninterp spec fn trim_start_of(s: Seq<char>) -> Seq<char>;

/// Relies on `str::trim_start`: `s` without its leading whitespace, which is
/// a suffix of `s`.
#[verifier::external_body]
fn trim_start(s: &str) -> (r: String)
    ensures
        r@ == trim_start_of(s@),
        r@.len() <= s@.len(),
        r@ == s@.subrange(s@.len() - r@.len(), s@.len() as int),
{
    s.trim_start().to_string()
}

/// Whether `path` names a TOML file.
pub open spec fn is_toml(path: Seq<char>) -> bool {
    path.len() >= 5 && path.subrange(path.len() - 5, path.len() as int) == ".toml"@
}

/// The start of the line that holds `key`: `key = ` in TOML, `key: ` in YAML.
pub open spec fn key_prefix(key: Seq<char>, toml: bool) -> Seq<char> {
    if toml {
        key + " = "@
    } else {
        key + ": "@
    }
}

/// A line with its value set to `version` if, trimmed, it starts with the
/// key's prefix; its indentation is kept. Other lines stay as they are.
pub open spec fn bumped_line(line: Seq<char>, key: Seq<char>, version: Seq<char>, toml: bool) -> Seq<char> {
    if after_prefix(trim_of(line), key_prefix(key, toml)) is Some {
        let indent = line.subrange(0, line.len() - trim_start_of(line).len());
        if toml {
            indent + key + " = \""@ + version + "\""@
        } else {
            indent + key + ": "@ + version
        }
    } else {
        line
    }
}

/// The manifest with every line of `key` set to `version`: its lines
/// rewritten one by one, joined with `\n`, and a final `\n`.
pub open spec fn bumped_content(path: Seq<char>, content: Seq<char>, key: Seq<char>, version: Seq<char>) -> Seq<char> {
    let ls = lines_of(content);
    join_on(Seq::new(ls.len(), |i: int| bumped_line(ls[i], key, version, is_toml(path))), '\n').push('\n')
}

fn ends_with_toml(path: &str) -> (r: bool)
    ensures
        r == is_toml(path@),
{
    let cs = chars_of(path);
    let ext = chars_of(".toml");
    if cs.len() < 5 {
        return false;
    }
    let mut tail: Vec<char> = Vec::new();
    let mut i: usize = cs.len() - 5;
    while i < cs.len()
        invariant
            cs@ == path@,
            cs.len() >= 5,
            cs.len() - 5 <= i <= cs.len(),
            tail@ == cs@.subrange(cs.len() - 5, i as int),
        decreases cs.len() - i,
    {
        tail.push(cs[i]);
        i = i + 1;
        assert(tail@ =~= cs@.subrange(cs.len() - 5, i as int));
    }
    compare_keys(&tail, &ext) == 0
}

fn bump_line(line: &Vec<char>, key: &str, version: &str, toml: bool) -> (r: String)
    ensures
        r@ == bumped_line(line@, key@, version@, toml),
{
    let text = string_of(line, 0, line.len());
    assert(text@ =~= line@);
    let mut prefix = String::from_str(key);
    if toml {
        prefix.append(" = ");
    } else {
        prefix.append(": ");
    }
    if value_after_prefix(trim(text.as_str()).as_str(), prefix.as_str()).is_none() {
        return text;
    }
    let rest = trim_start(text.as_str());
    let indent_len = line.len() - rest.as_str().unicode_len();
    let mut out = string_of(line, 0, indent_len);
    out.append(key);
    if toml {
        out.append(" = \"");
        out.append(version);
        out.append("\"");
    } else {
        out.append(": ");
        out.append(version);
    }
    out
}

/// Sets the value of every line of `key` in a manifest to `version`: a
/// TOML file (by its `.toml` name) gets `key = "version"`, any other gets
/// `key: version`, each at the line's own indentation.
pub fn bump_content(path: &str, content: &str, key: &str, version: &str) -> (r: String)
    ensures
        r@ == bumped_content(path@, content@, key@, version@),
{
    let toml = ends_with_toml(path);
    let ls = lines(content);
    let ghost all = lines_of(content@);
    let ghost want = Seq::new(all.len(), |i: int| bumped_line(all[i], key@, version@, toml));
    let mut out = String::new();
    let mut i: usize = 0;
    while i < ls.len()
        invariant
            all == lines_of(content@),
            want == Seq::new(all.len(), |i: int| bumped_line(all[i], key@, version@, toml)),
            ls@.len() == all.len(),
            forall|j: int| 0 <= j < ls@.len() ==> (#[trigger] ls@[j])@ == all[j],
            i <= ls@.len(),
            out@ == join_on(want.subrange(0, i as int), '\n'),
        decreases ls.len() - i,
    {
        let line = bump_line(&ls[i], key, version, toml);
        let ghost before = want.subrange(0, i as int);
        assert(want.subrange(0, i + 1).drop_last() =~= before);
        if i > 0 {
            push_line_break(&mut out);
        }
        out.append(line.as_str());
        i = i + 1;
        assert(out@ =~= join_on(want.subrange(0, i as int), '\n'));
    }
    assert(want.subrange(0, ls.len() as int) =~= want);
    push_line_break(&mut out);
    out
}

fn push_line_break(s: &mut String)
    ensures
        final(s)@ == old(s)@.push('\n'),
{
    crate::text::push_char(s, '\n');
}

/// Whether a release version is newer than the current one, comparing
/// major, then minor, then patch.
pub fn is_newer(current: (u32, u32, u32), new: (u32, u32, u32)) -> (r: bool)
    ensures
        r == (current.0 < new.0 || (current.0 == new.0 && (current.1 < new.1 || (current.1 == new.1
            && current.2 < new.2)))),
{
    current.0 < new.0 || (current.0 == new.0 && (current.1 < new.1 || (current.1 == new.1 && current.2
        < new.2)))
}

} // verus!
