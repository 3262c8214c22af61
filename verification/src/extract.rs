//! Verified text extraction: pulling a version string out of the text a
//! source hands back.

use vstd::prelude::*;

verus! {

/// Whether a character is whitespace: the class that
/// `char::is_whitespace` decides, a property of the character alone.
pub uninterp spec fn char_whitespace(c: char) -> bool;

/// Relies on `char::is_whitespace` of std, which decides whether a
/// character has the Unicode `White_Space` property; vstd gives it no
/// specification, so its result is only named here.
pub assume_specification[ char::is_whitespace ](c: char) -> (r: bool)
    ensures
        r == char_whitespace(c),
;

/// `s` without leading whitespace.
pub open spec fn spec_trim_start(s: Seq<char>) -> Seq<char>
    decreases s.len(),
{
    if s.len() > 0 && char_whitespace(s[0]) {
        spec_trim_start(s.skip(1))
    } else {
        s
    }
}

/// `s` without trailing whitespace.
pub open spec fn spec_trim_end(s: Seq<char>) -> Seq<char>
    decreases s.len(),
{
    if s.len() > 0 && char_whitespace(s.last()) {
        spec_trim_end(s.drop_last())
    } else {
        s
    }
}

/// `s` without leading and trailing whitespace.
pub open spec fn spec_trim(s: Seq<char>) -> Seq<char> {
    spec_trim_end(spec_trim_start(s))
}

/// A line's content once its terminator is stripped: a carriage return
/// before the line feed goes with it.
pub open spec fn strip_cr(l: Seq<char>) -> Seq<char> {
    if l.len() > 0 && l.last() == '\r' {
        l.drop_last()
    } else {
        l
    }
}

/// The lines of `s`, scanning left to right with the line in progress in
/// `cur`: split at every line feed, a final fragment only counting when
/// non-empty.
pub open spec fn lines_acc(s: Seq<char>, cur: Seq<char>) -> Seq<Seq<char>>
    decreases s.len(),
{
    if s.len() == 0 {
        if cur.len() == 0 {
            Seq::<Seq<char>>::empty()
        } else {
            seq![cur]
        }
    } else if s[0] == '\n' {
        seq![strip_cr(cur)] + lines_acc(s.skip(1), Seq::<char>::empty())
    } else {
        lines_acc(s.skip(1), cur.push(s[0]))
    }
}

/// The lines of `s`, as `str::lines` yields them.
pub open spec fn spec_lines(s: Seq<char>) -> Seq<Seq<char>> {
    lines_acc(s, Seq::<char>::empty())
}

/// What one line contributes: the trimmed text after a `Version:` prefix.
pub open spec fn line_version_field(l: Seq<char>) -> Option<Seq<char>> {
    if l.len() >= 8 && l.take(8) == "Version:"@ {
        Option::Some(spec_trim(l.skip(8)))
    } else {
        Option::None
    }
}

/// The first line's contribution, scanning in order.
pub open spec fn first_version_field(lines: Seq<Seq<char>>) -> Option<Seq<char>>
    decreases lines.len(),
{
    if lines.len() == 0 {
        Option::None
    } else {
        match line_version_field(lines[0]) {
            Option::Some(v) => Option::Some(v),
            Option::None => first_version_field(lines.skip(1)),
        }
    }
}

/// What `extract_version_field` returns: the trimmed remainder of the
/// first line beginning `Version:`.
pub open spec fn spec_extract_version_field(s: Seq<char>) -> Option<Seq<char>> {
    first_version_field(spec_lines(s))
}

/// Trim `line` and return it as an owned string.
fn trim_owned(line: &str) -> (r: String)
    ensures
        r@ == spec_trim(line@),
{
    let n = line.unicode_len();
    let mut a: usize = 0;
    proof {
        assert(line@.skip(0) =~= line@);
    }
    while a < n && line.get_char(a).is_whitespace()
        invariant
            n == line@.len(),
            a <= n,
            spec_trim_start(line@) == spec_trim_start(line@.skip(a as int)),
        decreases n - a,
    {
        proof {
            assert(line@.skip(a as int).len() > 0);
            assert(line@.skip(a as int)[0] == line@[a as int]);
            assert(line@.skip(a as int).skip(1) =~= line@.skip(a + 1));
        }
        a += 1;
    }
    proof {
        if a < n {
            assert(line@.skip(a as int)[0] == line@[a as int]);
        } else {
            assert(line@.skip(a as int) =~= Seq::<char>::empty());
        }
        assert(spec_trim_start(line@) == line@.skip(a as int));
    }
    let mut b: usize = n;
    proof {
        assert(line@.skip(a as int).take(n - a) =~= line@.skip(a as int));
    }
    while b > a && line.get_char(b - 1).is_whitespace()
        invariant
            n == line@.len(),
            a <= b <= n,
            spec_trim_start(line@) == line@.skip(a as int),
            a < n ==> !char_whitespace(line@[a as int]),
            spec_trim_end(line@.skip(a as int)) == spec_trim_end(
                line@.skip(a as int).take(b - a),
            ),
        decreases b,
    {
        proof {
            let t = line@.skip(a as int).take(b - a);
            assert(t.len() > 0);
            assert(t.last() == line@[b - 1]);
            assert(t.drop_last() =~= line@.skip(a as int).take(b - 1 - a));
        }
        b -= 1;
    }
    proof {
        let t = line@.skip(a as int).take(b - a);
        if b > a {
            assert(t.last() == line@[b - 1]);
            assert(!char_whitespace(t.last()));
        }
        assert(spec_trim_end(t) == t);
        assert(t =~= line@.subrange(a as int, b as int));
    }
    line.substring_char(a, b).to_owned()
}

/// Extract the value of the first `Version:` line, as package-manager
/// output formats it, trimmed of surrounding whitespace.
pub fn extract_version_field(text: &str) -> (r: Option<String>)
    ensures
        match r {
            Option::Some(v) => spec_extract_version_field(text@) == Option::Some(v@),
            Option::None => spec_extract_version_field(text@) is None,
        },
{
    let n = text.unicode_len();
    let mut i: usize = 0;
    // Start of the line in progress.
    let mut start: usize = 0;
    proof {
        assert(text@.skip(0) =~= text@);
        assert(text@.subrange(0, 0) =~= Seq::<char>::empty());
    }
    while i < n
        invariant
            n == text@.len(),
            start <= i <= n,
            forall|k: int| start <= k < i ==> text@[k] != '\n',
            spec_extract_version_field(text@) == first_version_field(
                lines_acc(text@.skip(i as int), text@.subrange(start as int, i as int)),
            ),
        decreases n - i,
    {
        let c = text.get_char(i);
        proof {
            assert(text@.skip(i as int).len() > 0);
            assert(text@.skip(i as int)[0] == text@[i as int]);
            assert(text@.skip(i as int).skip(1) =~= text@.skip(i + 1));
        }
        if c == '\n' {
            let line_end = if i > start && text.get_char(i - 1) == '\r' {
                i - 1
            } else {
                i
            };
            proof {
                let cur = text@.subrange(start as int, i as int);
                assert(strip_cr(cur) =~= text@.subrange(start as int, line_end as int));
                let rest = lines_acc(text@.skip(i + 1), Seq::<char>::empty());
                assert((seq![strip_cr(cur)] + rest)[0] == strip_cr(cur));
                assert((seq![strip_cr(cur)] + rest).skip(1) =~= rest);
            }
            match try_line(text, start, line_end) {
                Option::Some(v) => {
                    proof {
                        let cur = text@.subrange(start as int, i as int);
                        let rest = lines_acc(text@.skip(i + 1), Seq::<char>::empty());
                        assert(lines_acc(text@.skip(i as int), cur) == seq![strip_cr(cur)]
                            + rest);
                        assert(first_version_field(seq![strip_cr(cur)] + rest)
                            == line_version_field(strip_cr(cur)));
                    }
                    return Option::Some(v);
                },
                Option::None => {},
            }
            proof {
                assert(text@.subrange(i + 1, i + 1) =~= Seq::<char>::empty());
            }
            start = i + 1;
        } else {
            proof {
                assert(text@.subrange(start as int, i + 1) =~= text@.subrange(
                    start as int,
                    i as int,
                ).push(text@[i as int]));
            }
        }
        i += 1;
    }
    proof {
        assert(text@.skip(n as int) =~= Seq::<char>::empty());
    }
    if start < n {
        proof {
            let cur = text@.subrange(start as int, n as int);
            assert(seq![cur][0] == cur);
            assert(seq![cur].skip(1) =~= Seq::<Seq<char>>::empty());
            assert(lines_acc(text@.skip(n as int), cur) == seq![cur]);
            assert(first_version_field(Seq::<Seq<char>>::empty()) is None);
            assert(first_version_field(seq![cur]) == line_version_field(cur));
        }
        match try_line(text, start, n) {
            Option::Some(v) => Option::Some(v),
            Option::None => Option::None,
        }
    } else {
        proof {
            assert(text@.subrange(start as int, n as int).len() == 0);
        }
        Option::None
    }
}

/// The contribution of the line `text[start..end]`.
fn try_line(text: &str, start: usize, end: usize) -> (r: Option<String>)
    requires
        start <= end <= text@.len(),
    ensures
        match r {
            Option::Some(v) => line_version_field(text@.subrange(start as int, end as int))
                == Option::Some(v@),
            Option::None => line_version_field(text@.subrange(start as int, end as int))
                is None,
        },
{
    let ghost l = text@.subrange(start as int, end as int);
    if end - start >= 8 {
        let prefix = text.substring_char(start, start + 8);
        if crate::sources::str_eq(prefix, "Version:") {
            proof {
                assert(l.take(8) =~= text@.subrange(start as int, start + 8));
            }
            let rest = text.substring_char(start + 8, end);
            proof {
                assert(l.skip(8) =~= text@.subrange(start + 8, end as int));
            }
            Option::Some(trim_owned(rest))
        } else {
            proof {
                assert(l.take(8) =~= text@.subrange(start as int, start + 8));
            }
            Option::None
        }
    } else {
        Option::None
    }
}

/// The position of the first occurrence of `pat` in `s`.
pub open spec fn find_sub(s: Seq<char>, pat: Seq<char>) -> Option<int>
    decreases s.len(),
{
    if pat.len() == 0 {
        Option::Some(0int)
    } else if s.len() < pat.len() {
        Option::<int>::None
    } else if s.take(pat.len() as int) == pat {
        Option::Some(0int)
    } else {
        match find_sub(s.skip(1), pat) {
            Option::Some(i) => Option::Some(i + 1),
            Option::None => Option::None,
        }
    }
}

/// The segments of `s` split at `sep`, scanning left to right with the
/// segment in progress in `cur`; a final segment is always yielded.
pub open spec fn split_acc(s: Seq<char>, sep: char, cur: Seq<char>) -> Seq<Seq<char>>
    decreases s.len(),
{
    if s.len() == 0 {
        seq![cur]
    } else if s[0] == sep {
        seq![cur] + split_acc(s.skip(1), sep, Seq::<char>::empty())
    } else {
        split_acc(s.skip(1), sep, cur.push(s[0]))
    }
}

/// The segments of `s` split at `sep`, as `str::split` yields them.
pub open spec fn spec_split(s: Seq<char>, sep: char) -> Seq<Seq<char>> {
    split_acc(s, sep, Seq::<char>::empty())
}

/// One step of the path walk: the text between the first occurrence of
/// `"key":` and the next, as splitting on that pattern and taking the
/// second piece leaves it.
pub open spec fn json_step(cur: Seq<char>, key: Seq<char>) -> Option<Seq<char>> {
    let pat = seq!['"'] + key + seq!['"', ':'];
    match find_sub(cur, pat) {
        Option::None => Option::None,
        Option::Some(i) => {
            let rest = cur.skip(i + pat.len());
            match find_sub(rest, pat) {
                Option::None => Option::Some(rest),
                Option::Some(j) => Option::Some(rest.take(j)),
            }
        },
    }
}

/// The walk over every key of the path in turn.
pub open spec fn json_walk(cur: Seq<char>, keys: Seq<Seq<char>>) -> Option<Seq<char>>
    decreases keys.len(),
{
    if keys.len() == 0 {
        Option::Some(cur)
    } else {
        match json_step(cur, keys[0]) {
            Option::None => Option::None,
            Option::Some(nxt) => json_walk(nxt, keys.skip(1)),
        }
    }
}

/// The closing move: the text between the next pair of double quotes.
pub open spec fn json_finish(cur: Seq<char>) -> Option<Seq<char>> {
    match find_sub(cur, seq!['"']) {
        Option::None => Option::None,
        Option::Some(p) => {
            let rest = cur.skip(p + 1);
            match find_sub(rest, seq!['"']) {
                Option::None => Option::None,
                Option::Some(q) => Option::Some(rest.take(q)),
            }
        },
    }
}

/// What `extract_json_path` returns: walk the dotted path by textual
/// search, then take the first quoted string of what remains.
pub open spec fn spec_extract_json_path(json: Seq<char>, path: Seq<char>) -> Option<Seq<char>> {
    match json_walk(json, spec_split(path, '.')) {
        Option::None => Option::None,
        Option::Some(cur) => json_finish(cur),
    }
}

/// The first occurrence of `pat` in `s`, by position.
pub(crate) fn find_sub_str(s: &str, pat: &str) -> (r: Option<usize>)
    requires
        pat@.len() >= 1,
    ensures
        match r {
            Option::Some(i) => find_sub(s@, pat@) == Option::Some(i as int) && i + pat@.len()
                <= s@.len(),
            Option::None => find_sub(s@, pat@) is None,
        },
{
    let n = s.unicode_len();
    let m = pat.unicode_len();
    if m > n {
        return Option::None;
    }
    let mut i: usize = 0;
    proof {
        assert(s@.skip(0) =~= s@);
    }
    while i <= n - m
        invariant
            n == s@.len(),
            m == pat@.len(),
            m >= 1,
            m <= n,
            i <= n,
            match find_sub(s@.skip(i as int), pat@) {
                Option::Some(k) => find_sub(s@, pat@) == Option::Some(i + k),
                Option::None => find_sub(s@, pat@) is None,
            },
        decreases n - i,
    {
        proof {
            assert(s@.skip(i as int).len() == n - i);
            assert(s@.skip(i as int).take(m as int) =~= s@.subrange(i as int, i + m));
        }
        if crate::sources::str_eq(s.substring_char(i, i + m), pat) {
            return Option::Some(i);
        }
        proof {
            assert(s@.skip(i as int).skip(1) =~= s@.skip(i + 1));
        }
        i += 1;
    }
    proof {
        assert(s@.skip(i as int).len() < m);
    }
    Option::None
}


/// The segments of `s` split at `sep`, each as an owned string.
fn split_char(s: &str, sep: char) -> (r: Vec<String>)
    ensures
        r@.map_values(|x: String| x@) == spec_split(s@, sep),
{
    let n = s.unicode_len();
    let mut out: Vec<String> = Vec::new();
    let mut cur = String::new();
    let mut i: usize = 0;
    proof {
        assert(s@.skip(0) =~= s@);
        assert(out@.map_values(|x: String| x@) =~= Seq::<Seq<char>>::empty());
        assert(Seq::<Seq<char>>::empty() + split_acc(s@, sep, Seq::<char>::empty())
            =~= split_acc(s@, sep, Seq::<char>::empty()));
    }
    while i < n
        invariant
            n == s@.len(),
            i <= n,
            spec_split(s@, sep) == out@.map_values(|x: String| x@) + split_acc(
                s@.skip(i as int),
                sep,
                cur@,
            ),
        decreases n - i,
    {
        let c = s.get_char(i);
        proof {
            assert(s@.skip(i as int).len() > 0);
            assert(s@.skip(i as int)[0] == s@[i as int]);
            assert(s@.skip(i as int).skip(1) =~= s@.skip(i + 1));
        }
        if c == sep {
            let ghost prev = out@.map_values(|x: String| x@);
            let ghost curv = cur@;
            let ghost tail = split_acc(s@.skip(i + 1), sep, Seq::<char>::empty());
            out.push(cur);
            cur = String::new();
            proof {
                assert(out@.map_values(|x: String| x@) =~= prev.push(curv));
                assert(prev + (seq![curv] + tail) =~= prev.push(curv) + tail);
            }
        } else {
            cur.push(c);
        }
        i += 1;
    }
    proof {
        assert(s@.skip(n as int) =~= Seq::<char>::empty());
    }
    let ghost prev = out@.map_values(|x: String| x@);
    let ghost curv = cur@;
    out.push(cur);
    proof {
        assert(out@.map_values(|x: String| x@) =~= prev.push(curv));
        assert(prev + seq![curv] =~= prev.push(curv));
    }
    out
}

/// Extract a value from lightweight JSON text by a dotted key path: each
/// key narrows the text to what follows `"key":` (up to that pattern's
/// next occurrence), and the value is the first quoted string left.
pub fn extract_json_path(json: &str, path: &str) -> (r: Option<String>)
    ensures
        match r {
            Option::Some(v) => spec_extract_json_path(json@, path@) == Option::Some(v@),
            Option::None => spec_extract_json_path(json@, path@) is None,
        },
{
    let keys = split_char(path, '.');
    let ghost all_keys = spec_split(path@, '.');
    let mut current: String = json.to_owned();
    let mut ki: usize = 0;
    proof {
        assert(all_keys.skip(0) =~= all_keys);
    }
    while ki < keys.len()
        invariant
            keys@.map_values(|x: String| x@) == all_keys,
            all_keys == spec_split(path@, '.'),
            ki <= keys@.len(),
            json_walk(json@, all_keys) == json_walk(current@, all_keys.skip(ki as int)),
        decreases keys@.len() - ki,
    {
        proof {
            assert(all_keys.skip(ki as int).len() > 0);
            assert(all_keys.skip(ki as int)[0] == all_keys[ki as int]);
            assert(all_keys.skip(ki as int).skip(1) =~= all_keys.skip(ki + 1));
        }
        let key = &keys[ki];
        let mut pat = String::new();
        pat.push('"');
        pat.append(key.as_str());
        pat.push('"');
        pat.push(':');
        proof {
            assert(pat@ =~= seq!['"'] + key@ + seq!['"', ':']);
        }
        match find_sub_str(current.as_str(), pat.as_str()) {
            Option::None => {
                return Option::None;
            },
            Option::Some(i) => {
                let clen = current.as_str().unicode_len();
                let rest = current.as_str().substring_char(i + pat.as_str().unicode_len(), clen)
                    .to_owned();
                proof {
                    assert(rest@ =~= current@.skip(i + pat@.len()));
                }
                match find_sub_str(rest.as_str(), pat.as_str()) {
                    Option::None => {
                        current = rest;
                    },
                    Option::Some(j) => {
                        let taken = rest.as_str().substring_char(0, j).to_owned();
                        proof {
                            assert(taken@ =~= rest@.take(j as int));
                        }
                        current = taken;
                    },
                }
            },
        }
        ki += 1;
    }
    proof {
        assert(all_keys.skip(keys@.len() as int) =~= Seq::<Seq<char>>::empty());
        reveal_strlit("\"");
        assert("\""@ =~= seq!['"']);
    }
    match find_sub_str(current.as_str(), "\"") {
        Option::None => Option::None,
        Option::Some(p) => {
            let clen = current.as_str().unicode_len();
            let rest = current.as_str().substring_char(p + 1, clen).to_owned();
            proof {
                assert(rest@ =~= current@.skip(p + 1));
            }
            match find_sub_str(rest.as_str(), "\"") {
                Option::None => Option::None,
                Option::Some(q) => {
                    let out = rest.as_str().substring_char(0, q).to_owned();
                    proof {
                        assert(out@ =~= rest@.take(q as int));
                    }
                    Option::Some(out)
                },
            }
        },
    }
}

/// A character of the class a version suffix may hold: ASCII letters and
/// digits, dots and dashes.
pub open spec fn is_suffix_char(c: char) -> bool {
    crate::version::is_digit_char(c) || (97 <= c as u32 && c as u32 <= 122) || (65 <= c as u32
        && c as u32 <= 90) || c == '.' || c == '-'
}

/// The length of the run of ASCII digits starting at `i`.
pub open spec fn digit_run_from(s: Seq<char>, i: int) -> int
    decreases s.len() - i,
{
    if i < 0 || i >= s.len() || !crate::version::is_digit_char(s[i]) {
        0
    } else {
        1 + digit_run_from(s, i + 1)
    }
}

/// The length of the run of suffix characters starting at `i`.
pub open spec fn suffix_run_from(s: Seq<char>, i: int) -> int
    decreases s.len() - i,
{
    if i < 0 || i >= s.len() || !is_suffix_char(s[i]) {
        0
    } else {
        1 + suffix_run_from(s, i + 1)
    }
}

/// Where a version body ends when one starts at `q`: digits, a dot,
/// digits, then greedily one more dot-digits group and one dash-suffix
/// group.
pub open spec fn body_match_end(s: Seq<char>, q: int) -> Option<int> {
    let d1 = digit_run_from(s, q);
    if d1 == 0 {
        Option::<int>::None
    } else {
        let p1 = q + d1;
        if p1 >= s.len() || s[p1] != '.' {
            Option::<int>::None
        } else {
            let d2 = digit_run_from(s, p1 + 1);
            if d2 == 0 {
                Option::<int>::None
            } else {
                let e2 = p1 + 1 + d2;
                let e3 = if e2 < s.len() && s[e2] == '.' && digit_run_from(s, e2 + 1) > 0 {
                    e2 + 1 + digit_run_from(s, e2 + 1)
                } else {
                    e2
                };
                let e4 = if e3 < s.len() && s[e3] == '-' && suffix_run_from(s, e3 + 1) > 0 {
                    e3 + 1 + suffix_run_from(s, e3 + 1)
                } else {
                    e3
                };
                Option::Some(e4)
            }
        }
    }
}

/// The version match attempted at position `p`: an optional leading `v`
/// stays outside the reported range.
pub open spec fn match_at(s: Seq<char>, p: int) -> Option<(int, int)> {
    if 0 <= p < s.len() && s[p] == 'v' && body_match_end(s, p + 1) is Some {
        match body_match_end(s, p + 1) {
            Option::Some(e) => Option::Some((p + 1, e)),
            Option::None => Option::<(int, int)>::None,
        }
    } else {
        match body_match_end(s, p) {
            Option::Some(e) => Option::Some((p, e)),
            Option::None => Option::<(int, int)>::None,
        }
    }
}

/// The leftmost version match at or after `p`.
pub open spec fn first_match_from(s: Seq<char>, p: int) -> Option<(int, int)>
    decreases s.len() - p,
{
    if p < 0 || p >= s.len() {
        Option::<(int, int)>::None
    } else {
        match match_at(s, p) {
            Option::Some(m) => Option::Some(m),
            Option::None => first_match_from(s, p + 1),
        }
    }
}

/// What `extract_version` returns: the leftmost version-shaped run, its
/// optional leading `v` stripped.
pub open spec fn spec_extract_version(s: Seq<char>) -> Option<Seq<char>> {
    match first_match_from(s, 0) {
        Option::None => Option::None,
        Option::Some(m) => Option::Some(s.subrange(m.0, m.1)),
    }
}

/// Whether `c` is an ASCII digit.
fn is_digit_exec(c: char) -> (r: bool)
    ensures
        r == crate::version::is_digit_char(c),
{
    let u = c as u32;
    48 <= u && u <= 57
}

/// Whether `c` is of the suffix class.
fn is_suffix_exec(c: char) -> (r: bool)
    ensures
        r == is_suffix_char(c),
{
    let u = c as u32;
    (48 <= u && u <= 57) || (97 <= u && u <= 122) || (65 <= u && u <= 90) || c == '.' || c == '-'
}

/// One past the digit run starting at `i`.
fn digit_run_end(s: &str, i: usize) -> (j: usize)
    requires
        i <= s@.len(),
    ensures
        i <= j <= s@.len(),
        j == i + digit_run_from(s@, i as int),
{
    let n = s.unicode_len();
    let mut j = i;
    while j < n && is_digit_exec(s.get_char(j))
        invariant
            n == s@.len(),
            i <= j <= n,
            digit_run_from(s@, i as int) == j - i + digit_run_from(s@, j as int),
        decreases n - j,
    {
        j += 1;
    }
    j
}

/// One past the suffix-character run starting at `i`.
fn suffix_run_end(s: &str, i: usize) -> (j: usize)
    requires
        i <= s@.len(),
    ensures
        i <= j <= s@.len(),
        j == i + suffix_run_from(s@, i as int),
{
    let n = s.unicode_len();
    let mut j = i;
    while j < n && is_suffix_exec(s.get_char(j))
        invariant
            n == s@.len(),
            i <= j <= n,
            suffix_run_from(s@, i as int) == j - i + suffix_run_from(s@, j as int),
        decreases n - j,
    {
        j += 1;
    }
    j
}

/// Where the version body starting at `q` ends, if it matches.
fn body_match_exec(s: &str, q: usize) -> (r: Option<usize>)
    requires
        q <= s@.len(),
    ensures
        match r {
            Option::Some(e) => body_match_end(s@, q as int) == Option::Some(e as int) && q <= e
                <= s@.len(),
            Option::None => body_match_end(s@, q as int) is None,
        },
{
    let n = s.unicode_len();
    let p1 = digit_run_end(s, q);
    if p1 == q {
        return Option::None;
    }
    if p1 >= n || !(s.get_char(p1) == '.') {
        return Option::None;
    }
    let e2 = digit_run_end(s, p1 + 1);
    if e2 == p1 + 1 {
        return Option::None;
    }
    let e3 = if e2 < n && s.get_char(e2) == '.' {
        let d = digit_run_end(s, e2 + 1);
        if d > e2 + 1 {
            d
        } else {
            e2
        }
    } else {
        e2
    };
    let e4 = if e3 < n && s.get_char(e3) == '-' {
        let d = suffix_run_end(s, e3 + 1);
        if d > e3 + 1 {
            d
        } else {
            e3
        }
    } else {
        e3
    };
    Option::Some(e4)
}

/// Extract the leftmost version-shaped run of `text`: one or more
/// dot-separated numeric groups of the form `d.d` or `d.d.d`, with an
/// optional `-suffix` and an optional leading `v` that is stripped.
pub fn extract_version(text: &str) -> (r: Option<String>)
    ensures
        match r {
            Option::Some(v) => spec_extract_version(text@) == Option::Some(v@),
            Option::None => spec_extract_version(text@) is None,
        },
{
    let n = text.unicode_len();
    let mut p: usize = 0;
    while p < n
        invariant
            n == text@.len(),
            p <= n,
            first_match_from(text@, 0) == first_match_from(text@, p as int),
        decreases n - p,
    {
        let c = text.get_char(p);
        if c == 'v' {
            match body_match_exec(text, p + 1) {
                Option::Some(e) => {
                    return Option::Some(text.substring_char(p + 1, e).to_owned());
                },
                Option::None => {},
            }
        }
        match body_match_exec(text, p) {
            Option::Some(e) => {
                return Option::Some(text.substring_char(p, e).to_owned());
            },
            Option::None => {},
        }
        p += 1;
    }
    Option::None
}

} // verus!
