//! The version comparator: an ecosystem-agnostic strict order on
//! version-like strings.
//!
//! A string is read as the sequence of its maximal ASCII digit runs; each
//! run whose numeric value fits in a `u64` contributes one component, all
//! other text is ignored.  Two strings compare componentwise, a missing
//! component counting as zero.

use vstd::prelude::*;

verus! {

/// One ASCII decimal digit.
pub open spec fn is_digit_char(c: char) -> bool {
    48 <= c as u32 && c as u32 <= 57
}

/// Numeric value of one ASCII decimal digit.
pub open spec fn digit_val(c: char) -> nat
    recommends
        is_digit_char(c),
{
    (c as u32 - 48) as nat
}

/// A component is kept only when it fits in a `u64`; a longer digit run is
/// discarded, exactly as an unsigned parse of it would fail.
pub open spec fn emit(v: nat) -> Seq<nat> {
    if v <= u64::MAX {
        seq![v]
    } else {
        Seq::<nat>::empty()
    }
}

/// Left-to-right scan of `s`: `cur` carries the value of the digit run in
/// progress, and every completed run contributes `emit` of its value.
pub open spec fn scan_components(s: Seq<char>, cur: Option<nat>) -> Seq<nat>
    decreases s.len(),
{
    if s.len() == 0 {
        match cur {
            Option::None => Seq::<nat>::empty(),
            Option::Some(v) => emit(v),
        }
    } else if is_digit_char(s[0]) {
        let v0 = match cur {
            Option::None => 0nat,
            Option::Some(v) => v,
        };
        scan_components(s.skip(1), Option::Some(v0 * 10 + digit_val(s[0])))
    } else {
        (match cur {
            Option::None => Seq::<nat>::empty(),
            Option::Some(v) => emit(v),
        }) + scan_components(s.skip(1), Option::None)
    }
}

/// The numeric components of a version-like string.
pub open spec fn components(s: Seq<char>) -> Seq<nat> {
    scan_components(s, Option::None)
}

/// Component at index `i`, a missing component counting as zero.
pub open spec fn comp_at(s: Seq<nat>, i: int) -> nat {
    if 0 <= i < s.len() {
        s[i]
    } else {
        0
    }
}

/// Strict componentwise order: some index holds a strictly greater
/// component of `b` while every earlier index holds equal components.
pub open spec fn seq_newer(a: Seq<nat>, b: Seq<nat>) -> bool {
    exists|i: int|
        0 <= i && #[trigger] comp_at(a, i) < comp_at(b, i) && (forall|j: int|
            0 <= j < i ==> comp_at(a, j) == comp_at(b, j))
}

/// What `is_newer` decides: `candidate` is strictly newer than `installed`.
pub open spec fn version_newer(installed: Seq<char>, candidate: Seq<char>) -> bool {
    seq_newer(components(installed), components(candidate))
}

/// The order is irreflexive: no version is newer than itself.
pub proof fn lemma_version_order_irreflexive(v: Seq<char>)
    ensures
        !version_newer(v, v),
{
}

/// The order is asymmetric: when `b` is newer than `a`, `a` is not newer
/// than `b`.
pub proof fn lemma_version_order_asymmetric(a: Seq<char>, b: Seq<char>)
    ensures
        version_newer(a, b) ==> !version_newer(b, a),
{
    let ca = components(a);
    let cb = components(b);
    if seq_newer(ca, cb) && seq_newer(cb, ca) {
        let i = choose|i: int|
            0 <= i && #[trigger] comp_at(ca, i) < comp_at(cb, i) && (forall|j: int|
                0 <= j < i ==> comp_at(ca, j) == comp_at(cb, j));
        let k = choose|k: int|
            0 <= k && #[trigger] comp_at(cb, k) < comp_at(ca, k) && (forall|j: int|
                0 <= j < k ==> comp_at(cb, j) == comp_at(ca, j));
        if i < k {
            assert(comp_at(cb, i) == comp_at(ca, i));
        } else if k < i {
            assert(comp_at(ca, k) == comp_at(cb, k));
        }
    }
}

/// The order is transitive.
pub proof fn lemma_version_order_transitive(a: Seq<char>, b: Seq<char>, c: Seq<char>)
    ensures
        version_newer(a, b) && version_newer(b, c) ==> version_newer(a, c),
{
    let ca = components(a);
    let cb = components(b);
    let cc = components(c);
    if seq_newer(ca, cb) && seq_newer(cb, cc) {
        let i = choose|i: int|
            0 <= i && #[trigger] comp_at(ca, i) < comp_at(cb, i) && (forall|j: int|
                0 <= j < i ==> comp_at(ca, j) == comp_at(cb, j));
        let k = choose|k: int|
            0 <= k && #[trigger] comp_at(cb, k) < comp_at(cc, k) && (forall|j: int|
                0 <= j < k ==> comp_at(cb, j) == comp_at(cc, j));
        let m = if i < k {
            i
        } else {
            k
        };
        assert(comp_at(ca, m) < comp_at(cc, m));
        assert(forall|j: int| 0 <= j < m ==> comp_at(ca, j) == comp_at(cc, j));
    }
}


/// Two versions whose components agree at every index: such versions are
/// indistinguishable to the order.
pub open spec fn version_equiv(a: Seq<char>, b: Seq<char>) -> bool {
    forall|i: int| comp_at(components(a), i) == comp_at(components(b), i)
}

/// Where two component sequences differ somewhere, one is newer.
proof fn lemma_diff_implies_ordered(a: Seq<nat>, b: Seq<nat>, i: nat)
    requires
        comp_at(a, i as int) != comp_at(b, i as int),
    ensures
        seq_newer(a, b) || seq_newer(b, a),
    decreases i,
{
    if forall|j: int| 0 <= j < i ==> comp_at(a, j) == comp_at(b, j) {
        if comp_at(a, i as int) < comp_at(b, i as int) {
            assert(seq_newer(a, b));
        } else {
            assert(seq_newer(b, a));
        }
    } else {
        let j = choose|j: int| 0 <= j < i && comp_at(a, j) != comp_at(b, j);
        lemma_diff_implies_ordered(a, b, j as nat);
    }
}

/// The order is total up to equivalence: either one version is newer or
/// their components agree everywhere.
pub proof fn lemma_version_order_total(a: Seq<char>, b: Seq<char>)
    ensures
        version_newer(a, b) || version_newer(b, a) || version_equiv(a, b),
{
    if !version_equiv(a, b) {
        let i = choose|i: int|
            comp_at(components(a), i) != #[trigger] comp_at(components(b), i);
        if i >= 0 {
            lemma_diff_implies_ordered(components(a), components(b), i as nat);
        } else {
            assert(comp_at(components(a), i) == 0 && comp_at(components(b), i) == 0);
        }
    }
}

/// Equivalent versions compare alike with any third version.
pub proof fn lemma_version_equiv_congruent(a: Seq<char>, b: Seq<char>, c: Seq<char>)
    requires
        version_equiv(a, b),
    ensures
        version_newer(a, c) == version_newer(b, c),
        version_newer(c, a) == version_newer(c, b),
{
    let ca = components(a);
    let cb = components(b);
    let cc = components(c);
    if seq_newer(ca, cc) {
        let i = choose|i: int|
            0 <= i && #[trigger] comp_at(ca, i) < comp_at(cc, i) && (forall|j: int|
                0 <= j < i ==> comp_at(ca, j) == comp_at(cc, j));
        assert(comp_at(cb, i) < comp_at(cc, i));
        assert(seq_newer(cb, cc));
    }
    if seq_newer(cb, cc) {
        let i = choose|i: int|
            0 <= i && #[trigger] comp_at(cb, i) < comp_at(cc, i) && (forall|j: int|
                0 <= j < i ==> comp_at(cb, j) == comp_at(cc, j));
        assert(comp_at(ca, i) < comp_at(cc, i));
        assert(seq_newer(ca, cc));
    }
    if seq_newer(cc, ca) {
        let i = choose|i: int|
            0 <= i && #[trigger] comp_at(cc, i) < comp_at(ca, i) && (forall|j: int|
                0 <= j < i ==> comp_at(cc, j) == comp_at(ca, j));
        assert(comp_at(cc, i) < comp_at(cb, i));
        assert(seq_newer(cc, cb));
    }
    if seq_newer(cc, cb) {
        let i = choose|i: int|
            0 <= i && #[trigger] comp_at(cc, i) < comp_at(cb, i) && (forall|j: int|
                0 <= j < i ==> comp_at(cc, j) == comp_at(cb, j));
        assert(comp_at(cc, i) < comp_at(ca, i));
        assert(seq_newer(cc, ca));
    }
}

/// Numeric components of `v`, in order: the value of each maximal ASCII
/// digit run that fits in a `u64`.
pub fn parse_components(v: &str) -> (out: Vec<u64>)
    ensures
        out@.map_values(|x: u64| x as nat) == components(v@),
{
    let n = v.unicode_len();
    let mut out: Vec<u64> = Vec::new();
    let mut i: usize = 0;
    // The digit run in progress: `val` is its value while that still fits
    // in a u64, `big` records that it no longer does.
    let mut has_run: bool = false;
    let mut val: u64 = 0;
    let mut big: bool = false;
    let ghost mut run_val: nat = 0nat;
    proof {
        assert(v@.skip(0) =~= v@);
        assert(out@.map_values(|x: u64| x as nat) =~= Seq::<nat>::empty());
        assert(Seq::<nat>::empty() + scan_components(v@, Option::<nat>::None) =~= scan_components(
            v@,
            Option::<nat>::None,
        ));
    }
    while i < n
        invariant
            n == v@.len(),
            i <= n,
            has_run ==> (big <==> run_val > u64::MAX),
            (has_run && !big) ==> run_val == val,
            components(v@) == out@.map_values(|x: u64| x as nat) + scan_components(
                v@.skip(i as int),
                if has_run {
                    Option::Some(run_val)
                } else {
                    Option::<nat>::None
                },
            ),
        decreases n - i,
    {
        let c = v.get_char(i);
        let u = c as u32;
        proof {
            assert(v@.skip(i as int).len() > 0);
            assert(v@.skip(i as int)[0] == v@[i as int]);
            assert(v@.skip(i as int).skip(1) =~= v@.skip(i as int + 1));
        }
        if 48 <= u && u <= 57 {
            let d = (u - 48) as u64;
            let ghost v0: nat = if has_run {
                run_val
            } else {
                0nat
            };
            proof {
                run_val = v0 * 10 + digit_val(c);
            }
            if !has_run {
                has_run = true;
                big = false;
                val = d;
            } else if big {
                assert(v0 * 10 + digit_val(c) > u64::MAX);
            } else {
                match val.checked_mul(10) {
                    Option::Some(m) => {
                        match m.checked_add(d) {
                            Option::Some(s) => {
                                val = s;
                            },
                            Option::None => {
                                big = true;
                            },
                        }
                    },
                    Option::None => {
                        big = true;
                    },
                }
            }
        } else {
            if has_run && !big {
                let ghost old_map = out@.map_values(|x: u64| x as nat);
                out.push(val);
                proof {
                    assert(out@.map_values(|x: u64| x as nat) =~= old_map.push(val as nat));
                    assert(emit(run_val) =~= seq![val as nat]);
                }
            } else if has_run {
                assert(emit(run_val) =~= Seq::<nat>::empty());
            }
            has_run = false;
            proof {
                run_val = 0nat;
            }
        }
        i += 1;
    }
    proof {
        assert(v@.skip(n as int) =~= Seq::<char>::empty());
    }
    if has_run && !big {
        let ghost old_map = out@.map_values(|x: u64| x as nat);
        out.push(val);
        proof {
            assert(out@.map_values(|x: u64| x as nat) =~= old_map.push(val as nat));
            assert(emit(run_val) =~= seq![val as nat]);
        }
    }
    out
}

/// Componentwise comparison of two parsed versions, a missing component
/// counting as zero.
fn components_newer(a: &Vec<u64>, b: &Vec<u64>) -> (r: bool)
    ensures
        r == seq_newer(a@.map_values(|x: u64| x as nat), b@.map_values(|x: u64| x as nat)),
{
    let ghost sa = a@.map_values(|x: u64| x as nat);
    let ghost sb = b@.map_values(|x: u64| x as nat);
    let n = if a.len() > b.len() {
        a.len()
    } else {
        b.len()
    };
    let mut i: usize = 0;
    while i < n
        invariant
            sa == a@.map_values(|x: u64| x as nat),
            sb == b@.map_values(|x: u64| x as nat),
            n >= a.len() && n >= b.len(),
            i <= n,
            forall|j: int| 0 <= j < i ==> comp_at(sa, j) == comp_at(sb, j),
        decreases n - i,
    {
        let x = if i < a.len() {
            a[i]
        } else {
            0
        };
        let y = if i < b.len() {
            b[i]
        } else {
            0
        };
        if x < y {
            assert(comp_at(sa, i as int) < comp_at(sb, i as int));
            return true;
        }
        if x > y {
            assert(forall|k: int|
                0 <= k && comp_at(sa, k) < comp_at(sb, k) ==> !(forall|j: int|
                    0 <= j < k ==> comp_at(sa, j) == comp_at(sb, j))) by {
                assert forall|k: int|
                    0 <= k && comp_at(sa, k) < comp_at(sb, k) implies !(forall|j: int|
                    0 <= j < k ==> comp_at(sa, j) == comp_at(sb, j)) by {
                    if k <= i as int {
                        assert(comp_at(sa, k) >= comp_at(sb, k));
                    } else {
                        assert(comp_at(sa, i as int) != comp_at(sb, i as int));
                    }
                }
            }
            return false;
        }
        i += 1;
    }
    assert forall|k: int| 0 <= k implies !(comp_at(sa, k) < comp_at(sb, k)) by {
        if k < n {
            assert(comp_at(sa, k) == comp_at(sb, k));
        } else {
            assert(comp_at(sa, k) == 0 && comp_at(sb, k) == 0);
        }
    }
    false
}

/// Decide whether `latest` is a strictly newer version than `installed`.
///
/// Total over all strings: inputs without digits yield no components and
/// compare as equal, so the answer is `false`.
pub fn is_newer(installed: &str, latest: &str) -> (r: bool)
    ensures
        r == version_newer(installed@, latest@),
{
    let a = parse_components(installed);
    let b = parse_components(latest);
    components_newer(&a, &b)
}

} // verus!
