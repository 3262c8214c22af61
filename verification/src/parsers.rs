//! Small verified parsers for source-specific package notations: semver
//! padding for container tags, Maven coordinates and GitHub repository
//! paths.

use vstd::prelude::*;

use crate::extract::{find_sub, lines_acc, spec_lines};
use crate::version::is_digit_char;

verus! {

/// A character a bare version base may hold: an ASCII digit or a dot.
pub open spec fn is_base_char(c: char) -> bool {
    is_digit_char(c) || c == '.'
}

/// The length of the run of base characters starting at `i`.
pub open spec fn base_run_from(s: Seq<char>, i: int) -> int
    decreases s.len() - i,
{
    if i < 0 || i >= s.len() || !is_base_char(s[i]) {
        0
    } else {
        1 + base_run_from(s, i + 1)
    }
}

/// How many dots `s` holds.
pub open spec fn count_dots(s: Seq<char>) -> int
    decreases s.len(),
{
    if s.len() == 0 {
        0
    } else {
        count_dots(s.drop_last()) + if s.last() == '.' {
            1int
        } else {
            0int
        }
    }
}

/// What `pad_version` returns: the leading digits-and-dots base of `v`,
/// padded with `.0` groups up to three components; a base of three or
/// more components stands as it is.
pub open spec fn spec_pad_version(v: Seq<char>) -> Seq<char> {
    let b = v.take(base_run_from(v, 0));
    if count_dots(b) == 0 {
        b + ".0.0"@
    } else if count_dots(b) == 1 {
        b + ".0"@
    } else {
        b
    }
}

/// Pad a version-like tag to three components, dropping any suffix that
/// follows the digits and dots: `3` and `3.21-alpine` become `3.0.0` and
/// `3.21.0`.
pub fn pad_version(v: &str) -> (r: String)
    ensures
        r@ == spec_pad_version(v@),
{
    let n = v.unicode_len();
    let mut e: usize = 0;
    let mut dots: usize = 0;
    while e < n && is_base_exec(v.get_char(e))
        invariant
            n == v@.len(),
            e <= n,
            dots <= e,
            base_run_from(v@, 0) == e + base_run_from(v@, e as int),
            dots == count_dots(v@.take(e as int)),
        decreases n - e,
    {
        proof {
            assert(v@.take(e + 1).drop_last() =~= v@.take(e as int));
            assert(v@.take(e + 1).last() == v@[e as int]);
        }
        if v.get_char(e) == '.' {
            dots += 1;
        }
        e += 1;
    }
    proof {
        assert(base_run_from(v@, 0) == e);
    }
    let mut r = v.substring_char(0, e).to_owned();
    proof {
        assert(r@ =~= v@.take(e as int));
    }
    if dots == 0 {
        r.append(".0.0");
    } else if dots == 1 {
        r.append(".0");
    }
    r
}

/// Whether `c` is a base character.
fn is_base_exec(c: char) -> (r: bool)
    ensures
        r == is_base_char(c),
{
    let u = c as u32;
    (48 <= u && u <= 57) || c == '.'
}

/// What `parse_maven_coordinates` returns: the `group:artifact` pair,
/// absent unless `package` splits at exactly one colon into two
/// non-empty parts.
pub open spec fn spec_maven_coordinates(s: Seq<char>) -> Option<(Seq<char>, Seq<char>)> {
    match find_sub(s, seq![':']) {
        Option::None => Option::None,
        Option::Some(i) => {
            let group = s.take(i);
            let artifact = s.skip(i + 1);
            if find_sub(artifact, seq![':']) is Some {
                Option::None
            } else if group.len() == 0 || artifact.len() == 0 {
                Option::None
            } else {
                Option::Some((group, artifact))
            }
        },
    }
}

/// Split a Maven `group:artifact` coordinate pair.
pub fn parse_maven_coordinates(package: &str) -> (r: Option<(String, String)>)
    ensures
        match r {
            Option::Some(p) => spec_maven_coordinates(package@) == Option::Some((p.0@, p.1@)),
            Option::None => spec_maven_coordinates(package@) is None,
        },
{
    proof {
        reveal_strlit(":");
        assert(":"@ =~= seq![':']);
    }
    let n = package.unicode_len();
    match crate::extract::find_sub_str(package, ":") {
        Option::None => Option::None,
        Option::Some(i) => {
            let group = package.substring_char(0, i);
            let artifact = package.substring_char(i + 1, n);
            proof {
                assert(group@ =~= package@.take(i as int));
                assert(artifact@ =~= package@.skip(i + 1));
            }
            if let Option::Some(_) = crate::extract::find_sub_str(artifact, ":") {
                return Option::None;
            }
            if group.unicode_len() == 0 || artifact.unicode_len() == 0 {
                return Option::None;
            }
            Option::Some((group.to_owned(), artifact.to_owned()))
        },
    }
}

/// `s` with every leading repetition of `pat` removed.
pub open spec fn strip_prefix_rep(s: Seq<char>, pat: Seq<char>) -> Seq<char>
    decreases s.len(),
{
    if pat.len() > 0 && s.len() >= pat.len() && s.take(pat.len() as int) == pat {
        strip_prefix_rep(s.skip(pat.len() as int), pat)
    } else {
        s
    }
}

/// `s` with every trailing repetition of `pat` removed.
pub open spec fn strip_suffix_rep(s: Seq<char>, pat: Seq<char>) -> Seq<char>
    decreases s.len(),
{
    if pat.len() > 0 && s.len() >= pat.len() && s.skip(s.len() - pat.len()) == pat {
        strip_suffix_rep(s.take(s.len() - pat.len()), pat)
    } else {
        s
    }
}

/// `s` with every trailing slash removed.
pub open spec fn strip_slash_end(s: Seq<char>) -> Seq<char>
    decreases s.len(),
{
    if s.len() > 0 && s.last() == '/' {
        strip_slash_end(s.drop_last())
    } else {
        s
    }
}

/// The repository path once URL dressing is stripped.
pub open spec fn github_cleaned(s: Seq<char>) -> Seq<char> {
    strip_slash_end(
        strip_suffix_rep(
            strip_prefix_rep(
                strip_prefix_rep(strip_prefix_rep(s, "https://"@), "http://"@),
                "github.com/"@,
            ),
            ".git"@,
        ),
    )
}

/// What `parse_github_repo` returns: the `(owner, repo)` pair of the
/// cleaned path, absent unless it is exactly two non-empty segments.
pub open spec fn spec_github_repo(s: Seq<char>) -> Option<(Seq<char>, Seq<char>)> {
    let c = github_cleaned(s);
    match find_sub(c, seq!['/']) {
        Option::None => Option::None,
        Option::Some(i) => {
            let owner = c.take(i);
            let repo = c.skip(i + 1);
            if owner.len() == 0 {
                Option::None
            } else if find_sub(repo, seq!['/']) is Some {
                Option::None
            } else if repo.len() == 0 {
                Option::None
            } else {
                Option::Some((owner, repo))
            }
        },
    }
}

/// Strip every leading repetition of `pat` from the window
/// `s[lo..hi]`, returning the new window start.
fn strip_prefix_exec(s: &str, lo: usize, hi: usize, pat: &str) -> (r: usize)
    requires
        lo <= hi <= s@.len(),
        pat@.len() >= 1,
    ensures
        lo <= r <= hi,
        strip_prefix_rep(s@.subrange(lo as int, hi as int), pat@) == s@.subrange(
            r as int,
            hi as int,
        ),
{
    let m = pat.unicode_len();
    let mut cur = lo;
    while hi - cur >= m && crate::sources::str_eq(s.substring_char(cur, cur + m), pat)
        invariant
            lo <= cur <= hi <= s@.len(),
            m == pat@.len(),
            m >= 1,
            strip_prefix_rep(s@.subrange(lo as int, hi as int), pat@) == strip_prefix_rep(
                s@.subrange(cur as int, hi as int),
                pat@,
            ),
        decreases hi - cur,
    {
        proof {
            let w = s@.subrange(cur as int, hi as int);
            assert(w.take(m as int) =~= s@.subrange(cur as int, cur + m));
            assert(w.skip(m as int) =~= s@.subrange(cur + m, hi as int));
        }
        cur += m;
    }
    proof {
        let w = s@.subrange(cur as int, hi as int);
        if w.len() >= m {
            assert(w.take(m as int) =~= s@.subrange(cur as int, cur + m));
        }
        assert(strip_prefix_rep(w, pat@) == w);
    }
    cur
}

/// Strip every trailing repetition of `pat` from the window
/// `s[lo..hi]`, returning the new window end.
fn strip_suffix_exec(s: &str, lo: usize, hi: usize, pat: &str) -> (r: usize)
    requires
        lo <= hi <= s@.len(),
        pat@.len() >= 1,
    ensures
        lo <= r <= hi,
        strip_suffix_rep(s@.subrange(lo as int, hi as int), pat@) == s@.subrange(
            lo as int,
            r as int,
        ),
{
    let m = pat.unicode_len();
    let mut cur = hi;
    while cur - lo >= m && crate::sources::str_eq(s.substring_char(cur - m, cur), pat)
        invariant
            lo <= cur <= hi <= s@.len(),
            m == pat@.len(),
            m >= 1,
            strip_suffix_rep(s@.subrange(lo as int, hi as int), pat@) == strip_suffix_rep(
                s@.subrange(lo as int, cur as int),
                pat@,
            ),
        decreases cur,
    {
        proof {
            let w = s@.subrange(lo as int, cur as int);
            assert(w.skip(w.len() - m) =~= s@.subrange(cur - m, cur as int));
            assert(w.take(w.len() - m) =~= s@.subrange(lo as int, cur - m));
        }
        cur -= m;
    }
    proof {
        let w = s@.subrange(lo as int, cur as int);
        if w.len() >= m {
            assert(w.skip(w.len() - m) =~= s@.subrange(cur - m, cur as int));
        }
        assert(strip_suffix_rep(w, pat@) == w);
    }
    cur
}

/// Split a GitHub repository reference into owner and repository name,
/// accepting a bare `owner/repo` or an URL form.
pub fn parse_github_repo(package: &str) -> (r: Option<(String, String)>)
    ensures
        match r {
            Option::Some(p) => spec_github_repo(package@) == Option::Some((p.0@, p.1@)),
            Option::None => spec_github_repo(package@) is None,
        },
{
    let n = package.unicode_len();
    proof {
        assert(package@.subrange(0, n as int) =~= package@);
        reveal_strlit("https://");
        reveal_strlit("http://");
        reveal_strlit("github.com/");
        reveal_strlit(".git");
    }
    let lo1 = strip_prefix_exec(package, 0, n, "https://");
    let lo2 = strip_prefix_exec(package, lo1, n, "http://");
    let lo3 = strip_prefix_exec(package, lo2, n, "github.com/");
    let hi1 = strip_suffix_exec(package, lo3, n, ".git");
    let mut hi2 = hi1;
    while hi2 > lo3 && package.get_char(hi2 - 1) == '/'
        invariant
            lo3 <= hi2 <= hi1 <= n == package@.len(),
            strip_slash_end(package@.subrange(lo3 as int, hi1 as int)) == strip_slash_end(
                package@.subrange(lo3 as int, hi2 as int),
            ),
        decreases hi2,
    {
        proof {
            let w = package@.subrange(lo3 as int, hi2 as int);
            assert(w.last() == package@[hi2 - 1]);
            assert(w.drop_last() =~= package@.subrange(lo3 as int, hi2 - 1));
        }
        hi2 -= 1;
    }
    proof {
        let w = package@.subrange(lo3 as int, hi2 as int);
        if w.len() > 0 {
            assert(w.last() == package@[hi2 - 1]);
        }
        assert(strip_slash_end(w) == w);
        assert(github_cleaned(package@) == package@.subrange(lo3 as int, hi2 as int));
    }
    let cleaned = package.substring_char(lo3, hi2);
    proof {
        assert(cleaned@ =~= package@.subrange(lo3 as int, hi2 as int));
        reveal_strlit("/");
        assert("/"@ =~= seq!['/']);
    }
    let clen = cleaned.unicode_len();
    match crate::extract::find_sub_str(cleaned, "/") {
        Option::None => Option::None,
        Option::Some(i) => {
            let owner = cleaned.substring_char(0, i);
            let repo = cleaned.substring_char(i + 1, clen);
            proof {
                assert(owner@ =~= cleaned@.take(i as int));
                assert(repo@ =~= cleaned@.skip(i + 1));
            }
            if owner.unicode_len() == 0 {
                return Option::None;
            }
            if let Option::Some(_) = crate::extract::find_sub_str(repo, "/") {
                return Option::None;
            }
            if repo.unicode_len() == 0 {
                return Option::None;
            }
            Option::Some((owner.to_owned(), repo.to_owned()))
        },
    }
}

/// What lowercasing a string yields: the result of `str::to_lowercase`,
/// a function of the characters alone.
pub uninterp spec fn lower_of(s: Seq<char>) -> Seq<char>;

/// Relies on `str::to_lowercase` of std, which maps each character to
/// its Unicode lowercase form; vstd gives it no specification, so its
/// result is only named here.
pub assume_specification[ str::to_lowercase ](s: &str) -> (r: String)
    ensures
        r@ == lower_of(s@),
;

/// `s` with every dash turned into an underscore.
pub open spec fn dashes_to_underscores(s: Seq<char>) -> Seq<char> {
    s.map_values(
        |c: char|
            if c == '-' {
                '_'
            } else {
                c
            },
    )
}

/// A package name as uv.lock matching compares it: dashes folded to
/// underscores, then lowercased.
pub open spec fn normalized_name(s: Seq<char>) -> Seq<char> {
    lower_of(dashes_to_underscores(s))
}

/// Turn every dash of `s` into an underscore.
fn replace_dashes(s: &str) -> (r: String)
    ensures
        r@ == dashes_to_underscores(s@),
{
    let n = s.unicode_len();
    let mut r = String::new();
    let mut i: usize = 0;
    while i < n
        invariant
            n == s@.len(),
            i <= n,
            r@ == dashes_to_underscores(s@.take(i as int)),
        decreases n - i,
    {
        let c = s.get_char(i);
        if c == '-' {
            r.push('_');
        } else {
            r.push(c);
        }
        proof {
            assert(s@.take(i + 1) =~= s@.take(i as int).push(s@[i as int]));
            assert(dashes_to_underscores(s@.take(i + 1)) =~= r@);
        }
        i += 1;
    }
    proof {
        assert(s@.take(n as int) =~= s@);
    }
    r
}

/// Normalize a package name for uv.lock matching.
fn normalize_name(s: &str) -> (r: String)
    ensures
        r@ == normalized_name(s@),
{
    replace_dashes(s).as_str().to_lowercase()
}

/// A line opening a new package block.
pub open spec fn uv_line_starts_block(l: Seq<char>) -> bool {
    l.len() >= 11 && l.take(11) == "[[package]]"@
}

/// The quoted value of a `name = "..."` line.
pub open spec fn uv_line_name(l: Seq<char>) -> Option<Seq<char>> {
    if l.len() >= 9 && l.take(8) == "name = \""@ && l.last() == '"' {
        Option::Some(l.subrange(8, l.len() - 1))
    } else {
        Option::None
    }
}

/// The quoted value of a `version = "..."` line.
pub open spec fn uv_line_version(l: Seq<char>) -> Option<Seq<char>> {
    if l.len() >= 12 && l.take(11) == "version = \""@ && l.last() == '"' {
        Option::Some(l.subrange(11, l.len() - 1))
    } else {
        Option::None
    }
}

/// The lockfile walk: a block header leaves the target, a name line
/// enters it when the normalized name matches, and the first version
/// line inside the target answers.
pub open spec fn uv_scan(lines: Seq<Seq<char>>, target: Seq<char>, in_target: bool) -> Option<
    Seq<char>,
>
    decreases lines.len(),
{
    if lines.len() == 0 {
        Option::<Seq<char>>::None
    } else {
        let l = lines[0];
        if uv_line_starts_block(l) {
            uv_scan(lines.skip(1), target, false)
        } else {
            match uv_line_name(l) {
                Option::Some(n) => uv_scan(lines.skip(1), target, normalized_name(n) == target),
                Option::None => {
                    if in_target {
                        match uv_line_version(l) {
                            Option::Some(v) => Option::Some(v),
                            Option::None => uv_scan(lines.skip(1), target, in_target),
                        }
                    } else {
                        uv_scan(lines.skip(1), target, in_target)
                    }
                },
            }
        }
    }
}

/// What `parse_uv_lock` returns: the version pinned in the lockfile for
/// the package, names compared in normalized form.
pub open spec fn spec_parse_uv_lock(content: Seq<char>, package: Seq<char>) -> Option<Seq<char>> {
    uv_scan(spec_lines(content), normalized_name(package), false)
}

/// Process one lockfile line: the answer it yields, if any, and the
/// in-target state it leaves behind.
fn uv_step(line: &str, target_norm: &str, in_target: bool) -> (r: (Option<String>, bool))
    ensures
        ({
            let l = line@;
            if uv_line_starts_block(l) {
                r.0 is None && r.1 == false
            } else {
                match uv_line_name(l) {
                    Option::Some(n) => r.0 is None && r.1 == (normalized_name(n)
                        == target_norm@),
                    Option::None => {
                        if in_target {
                            match uv_line_version(l) {
                                Option::Some(v) => (r.0 matches Some(out) && out@ == v) && r.1
                                    == in_target,
                                Option::None => r.0 is None && r.1 == in_target,
                            }
                        } else {
                            r.0 is None && r.1 == in_target
                        }
                    },
                }
            }
        }),
{
    let n = line.unicode_len();
    if n >= 11 && crate::sources::str_eq(line.substring_char(0, 11), "[[package]]") {
        proof {
            assert(line@.take(11) =~= line@.subrange(0, 11));
        }
        return (Option::None, false);
    }
    proof {
        if n >= 11 {
            assert(line@.take(11) =~= line@.subrange(0, 11));
        }
    }
    if n >= 9 && crate::sources::str_eq(line.substring_char(0, 8), "name = \"") && line.get_char(
        n - 1,
    ) == '"' {
        proof {
            assert(line@.take(8) =~= line@.subrange(0, 8));
        }
        let name = line.substring_char(8, n - 1);
        let matched = crate::sources::str_eq(normalize_name(name).as_str(), target_norm);
        return (Option::None, matched);
    }
    proof {
        if n >= 9 {
            assert(line@.take(8) =~= line@.subrange(0, 8));
        }
    }
    if in_target && n >= 12 && crate::sources::str_eq(line.substring_char(0, 11), "version = \"")
        && line.get_char(n - 1) == '"' {
        proof {
            assert(line@.take(11) =~= line@.subrange(0, 11));
        }
        let version = line.substring_char(11, n - 1);
        return (Option::Some(version.to_owned()), in_target);
    }
    proof {
        if n >= 12 {
            assert(line@.take(11) =~= line@.subrange(0, 11));
        }
    }
    (Option::None, in_target)
}

/// Read the version pinned for `package` out of uv.lock text: the first
/// `version = "..."` line of the `[[package]]` block whose name matches
/// the package, names compared with dashes folded and case ignored.
pub fn parse_uv_lock(content: &str, package: &str) -> (r: Option<String>)
    ensures
        match r {
            Option::Some(v) => spec_parse_uv_lock(content@, package@) == Option::Some(v@),
            Option::None => spec_parse_uv_lock(content@, package@) is None,
        },
{
    let target_norm = normalize_name(package);
    let ghost tgt = normalized_name(package@);
    let n = content.unicode_len();
    let mut i: usize = 0;
    let mut start: usize = 0;
    let mut in_target: bool = false;
    proof {
        assert(content@.skip(0) =~= content@);
        assert(content@.subrange(0, 0) =~= Seq::<char>::empty());
    }
    while i < n
        invariant
            n == content@.len(),
            start <= i <= n,
            target_norm@ == tgt,
            tgt == normalized_name(package@),
            forall|k: int| start <= k < i ==> content@[k] != '\n',
            spec_parse_uv_lock(content@, package@) == uv_scan(
                lines_acc(content@.skip(i as int), content@.subrange(start as int, i as int)),
                tgt,
                in_target,
            ),
        decreases n - i,
    {
        let c = content.get_char(i);
        proof {
            assert(content@.skip(i as int).len() > 0);
            assert(content@.skip(i as int)[0] == content@[i as int]);
            assert(content@.skip(i as int).skip(1) =~= content@.skip(i + 1));
        }
        if c == '\n' {
            let line_end = if i > start && content.get_char(i - 1) == '\r' {
                i - 1
            } else {
                i
            };
            proof {
                let cur = content@.subrange(start as int, i as int);
                assert(crate::extract::strip_cr(cur) =~= content@.subrange(
                    start as int,
                    line_end as int,
                ));
                let rest = lines_acc(content@.skip(i + 1), Seq::<char>::empty());
                assert((seq![crate::extract::strip_cr(cur)] + rest)[0]
                    == crate::extract::strip_cr(cur));
                assert((seq![crate::extract::strip_cr(cur)] + rest).skip(1) =~= rest);
            }
            let line = content.substring_char(start, line_end);
            let (answer, next_state) = uv_step(line, target_norm.as_str(), in_target);
            match answer {
                Option::Some(v) => {
                    return Option::Some(v);
                },
                Option::None => {},
            }
            in_target = next_state;
            proof {
                assert(content@.subrange(i + 1, i + 1) =~= Seq::<char>::empty());
            }
            start = i + 1;
        } else {
            proof {
                assert(content@.subrange(start as int, i + 1) =~= content@.subrange(
                    start as int,
                    i as int,
                ).push(content@[i as int]));
            }
        }
        i += 1;
    }
    proof {
        assert(content@.skip(n as int) =~= Seq::<char>::empty());
    }
    if start < n {
        proof {
            let cur = content@.subrange(start as int, n as int);
            assert(seq![cur][0] == cur);
            assert(seq![cur].skip(1) =~= Seq::<Seq<char>>::empty());
            assert(lines_acc(content@.skip(n as int), cur) == seq![cur]);
        }
        let line = content.substring_char(start, n);
        let (answer, _) = uv_step(line, target_norm.as_str(), in_target);
        proof {
            assert(uv_scan(Seq::<Seq<char>>::empty(), tgt, true) is None);
            assert(uv_scan(Seq::<Seq<char>>::empty(), tgt, false) is None);
        }
        match answer {
            Option::Some(v) => Option::Some(v),
            Option::None => Option::None,
        }
    } else {
        proof {
            assert(content@.subrange(start as int, n as int).len() == 0);
        }
        Option::None
    }
}

} // verus!
