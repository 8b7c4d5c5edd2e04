use vstd::prelude::*;
use vstd::string::StrSliceExecFns;

verus! {

// ---------------------------------------------------------------------------
// "Did you mean" hints: the visible name closest to an unknown one, by edit
// distance, when it is close enough to be a likely typo.
// ---------------------------------------------------------------------------

/// The smaller of two numbers.
pub open spec fn min_nat(a: nat, b: nat) -> nat {
    if a <= b {
        a
    } else {
        b
    }
}

/// The edit (Levenshtein) distance between two strings: the fewest
/// insertions, deletions and substitutions of one character that turn `a`
/// into `b`.
pub open spec fn edit_distance(a: Seq<char>, b: Seq<char>) -> nat
    decreases a.len() + b.len(),
{
    if a.len() == 0 {
        b.len()
    } else if b.len() == 0 {
        a.len()
    } else {
        min_nat(
            min_nat(edit_distance(a.drop_last(), b) + 1, edit_distance(a, b.drop_last()) + 1),
            edit_distance(a.drop_last(), b.drop_last()) + if a.last() == b.last() {
                0nat
            } else {
                1nat
            },
        )
    }
}

/// How far a name may be from `name` to be offered as a hint: a third of
/// `name`'s length, and at least one edit.
pub open spec fn hint_limit(name: Seq<char>) -> nat {
    if name.len() / 3 > 1 {
        name.len() / 3
    } else {
        1
    }
}

/// `c` is another name within the hint limit of `name`.
pub open spec fn close_to(name: Seq<char>, c: Seq<char>) -> bool {
    c != name && edit_distance(name, c) <= hint_limit(name)
}

/// The position, among the first `n` candidates, of the first one that is
/// close to `name` at the least distance; `None` where none is close.
pub open spec fn closest(name: Seq<char>, cands: Seq<Seq<char>>, n: int) -> Option<int>
    decreases n,
{
    if n <= 0 {
        None
    } else {
        let before = closest(name, cands, n - 1);
        if close_to(name, cands[n - 1]) && (before is None || edit_distance(name, cands[n - 1])
            < edit_distance(name, cands[before->0])) {
            Some(n - 1)
        } else {
            before
        }
    }
}

/// The characters of a string.
fn chars_of(s: &str) -> (v: Vec<char>)
    ensures
        v@ == s@,
{
    let n = s.unicode_len();
    let mut v: Vec<char> = Vec::new();
    let mut i: usize = 0;
    while i < n
        invariant
            n == s@.len(),
            i <= n,
            v@ == s@.take(i as int),
        decreases n - i,
    {
        v.push(s.get_char(i));
        i += 1;
        proof {
            assert(v@ =~= s@.take(i as int));
        }
    }
    proof {
        assert(s@.take(n as int) =~= s@);
    }
    v
}

proof fn lemma_edit_distance_bound(a: Seq<char>, b: Seq<char>)
    ensures
        edit_distance(a, b) <= a.len() + b.len(),
    decreases a.len() + b.len(),
{
    if a.len() > 0 && b.len() > 0 {
        lemma_edit_distance_bound(a.drop_last(), b);
    }
}

/// The edit distance of `a` and `b`, row by row.
fn edit_distance_of(a: &Vec<char>, b: &Vec<char>) -> (d: usize)
    requires
        a@.len() + b@.len() < usize::MAX,
    ensures
        d == edit_distance(a@, b@),
{
    let n = a.len();
    let m = b.len();
    // row[j] is the distance between the first i characters of `a` and the
    // first j of `b`.
    let mut row: Vec<usize> = Vec::new();
    let mut j: usize = 0;
    while j <= m
        invariant
            m == b@.len(),
            n == a@.len(),
            n + m < usize::MAX,
            j <= m + 1,
            row@.len() == j,
            forall|k: int| 0 <= k < j ==> #[trigger] row@[k] == edit_distance(a@.take(0), b@.take(k)),
        decreases m + 1 - j,
    {
        proof {
            assert(a@.take(0).len() == 0);
        }
        row.push(j);
        j += 1;
    }
    let mut i: usize = 0;
    while i < n
        invariant
            m == b@.len(),
            n == a@.len(),
            n + m < usize::MAX,
            i <= n,
            row@.len() == m + 1,
            forall|k: int| 0 <= k <= m ==> #[trigger] row@[k] == edit_distance(a@.take(i as int), b@.take(k)),
        decreases n - i,
    {
        let mut next: Vec<usize> = Vec::new();
        proof {
            assert(a@.take(i + 1).len() > 0);
            assert(b@.take(0).len() == 0);
        }
        next.push(i + 1);
        let mut k: usize = 1;
        while k <= m
            invariant
                m == b@.len(),
                n == a@.len(),
                n + m < usize::MAX,
                i < n,
                1 <= k <= m + 1,
                row@.len() == m + 1,
                next@.len() == k,
                forall|t: int| 0 <= t <= m ==> #[trigger] row@[t] == edit_distance(a@.take(i as int), b@.take(t)),
                forall|t: int| 0 <= t < k ==> #[trigger] next@[t] == edit_distance(a@.take(i + 1), b@.take(t)),
            decreases m + 1 - k,
        {
            let ghost aa = a@.take(i + 1);
            let ghost bb = b@.take(k as int);
            proof {
                assert(aa.drop_last() =~= a@.take(i as int));
                assert(bb.drop_last() =~= b@.take(k - 1));
                assert(aa.last() == a@[i as int]);
                assert(bb.last() == b@[k - 1]);
                lemma_edit_distance_bound(a@.take(i as int), b@.take(k as int));
                lemma_edit_distance_bound(aa, b@.take(k - 1));
                lemma_edit_distance_bound(a@.take(i as int), b@.take(k - 1));
            }
            let delete = row[k] + 1;
            let insert = next[k - 1] + 1;
            let cost: usize = if a[i] == b[k - 1] {
                0
            } else {
                1
            };
            let replace = row[k - 1] + cost;
            let best_of_two = if delete <= insert {
                delete
            } else {
                insert
            };
            let best = if best_of_two <= replace {
                best_of_two
            } else {
                replace
            };
            next.push(best);
            k += 1;
        }
        row = next;
        i += 1;
    }
    proof {
        assert(a@.take(n as int) =~= a@);
        assert(b@.take(m as int) =~= b@);
    }
    row[m]
}

/// Whether two character lists are equal.
fn same_chars(x: &Vec<char>, y: &Vec<char>) -> (r: bool)
    ensures
        r == (x@ == y@),
{
    if x.len() != y.len() {
        return false;
    }
    let mut t: usize = 0;
    while t < x.len()
        invariant
            x@.len() == y@.len(),
            t <= x@.len(),
            forall|k: int| 0 <= k < t ==> x@[k] == y@[k],
        decreases x@.len() - t,
    {
        if x[t] != y[t] {
            return false;
        }
        t += 1;
    }
    proof {
        assert(x@ =~= y@);
    }
    true
}

/// The position of the first of `candidates` that is closest to `name` and
/// close enough to suggest (see `close_to`), if any is.
pub fn closest_name(name: &str, candidates: &Vec<String>) -> (r: Option<usize>)
    requires
        forall|k: int| 0 <= k < candidates@.len() ==> name@.len() + (#[trigger] candidates@[k])@.len() < usize::MAX,
    ensures
        match r {
            Some(k) => closest(name@, candidates@.map_values(|c: String| c@), candidates@.len() as int) == Some(
                k as int,
            ),
            None => closest(name@, candidates@.map_values(|c: String| c@), candidates@.len() as int) is None,
        },
{
    let ghost cands = candidates@.map_values(|c: String| c@);
    let target = chars_of(name);
    let limit: usize = if target.len() / 3 > 1 {
        target.len() / 3
    } else {
        1
    };
    let mut best: Option<usize> = None;
    let mut best_distance: usize = 0;
    let mut i: usize = 0;
    while i < candidates.len()
        invariant
            target@ == name@,
            cands == candidates@.map_values(|c: String| c@),
            limit == hint_limit(name@),
            i <= candidates@.len(),
            forall|k: int| 0 <= k < candidates@.len() ==> name@.len() + (#[trigger] candidates@[k])@.len() < usize::MAX,
            match best {
                Some(b) => closest(name@, cands, i as int) == Some(b as int) && best_distance == edit_distance(
                    name@,
                    cands[b as int],
                ),
                None => closest(name@, cands, i as int) is None,
            },
        decreases candidates@.len() - i,
    {
        let c = chars_of(candidates[i].as_str());
        proof {
            assert(cands[i as int] == candidates@[i as int]@);
            assert(name@.len() + candidates@[i as int]@.len() < usize::MAX);
        }
        let d = edit_distance_of(&target, &c);
        let same = same_chars(&target, &c);
        let is_close = !same && d <= limit;
        let better = match best {
            None => true,
            Some(_) => d < best_distance,
        };
        if is_close && better {
            best = Some(i);
            best_distance = d;
        }
        i += 1;
    }
    best
}

/// The names of a list of strings.
pub open spec fn names_of(v: Seq<String>) -> Seq<Seq<char>> {
    v.map_values(|c: String| c@)
}

/// The hint for an unknown `name` among the visible names `cands`: the
/// closest close name, quoted; `None` where no name is close.
pub open spec fn hint(name: Seq<char>, cands: Seq<Seq<char>>) -> Option<Seq<char>> {
    match closest(name, cands, cands.len() as int) {
        Some(k) => Some("did you mean `"@ + cands[k] + "`?"@),
        None => None,
    }
}

/// The "did you mean" hint for an unknown `name` among the visible names.
pub fn did_you_mean(name: &str, candidates: &Vec<String>) -> (r: Option<String>)
    requires
        forall|k: int| 0 <= k < candidates@.len() ==> name@.len() + (#[trigger] candidates@[k])@.len() < usize::MAX,
    ensures
        match r {
            Some(s) => hint(name@, names_of(candidates@)) == Some(s@),
            None => hint(name@, names_of(candidates@)) is None,
        },
{
    let found = closest_name(name, candidates);
    proof {
        lemma_hint_is_first_closest(name@, names_of(candidates@), candidates@.len() as int);
    }
    match found {
        Some(k) => {
            proof {
                assert(names_of(candidates@)[k as int] == candidates@[k as int]@);
            }
            let mut s = "did you mean `".to_owned();
            s.append(candidates[k].as_str());
            s.append("`?");
            Some(s)
        },
        None => None,
    }
}

/// The hint, when there is one, is a visible name other than `name`, within
/// the hint limit, at the least distance of all visible names other than
/// `name`, and the first at that distance.
pub proof fn lemma_hint_is_first_closest(name: Seq<char>, cands: Seq<Seq<char>>, n: int)
    requires
        0 <= n <= cands.len(),
    ensures
        match closest(name, cands, n) {
            Some(k) => {
                &&& 0 <= k < n
                &&& close_to(name, cands[k])
                &&& forall|j: int| 0 <= j < n && close_to(name, cands[j]) ==> edit_distance(name, cands[k])
                    <= #[trigger] edit_distance(name, cands[j])
                &&& forall|j: int| 0 <= j < k && close_to(name, cands[j]) ==> edit_distance(name, cands[k])
                    < #[trigger] edit_distance(name, cands[j])
            },
            None => forall|j: int| 0 <= j < n ==> !close_to(name, #[trigger] cands[j]),
        },
    decreases n,
{
    if n > 0 {
        lemma_hint_is_first_closest(name, cands, n - 1);
    }
}

} // verus!
