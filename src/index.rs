//! The approximate identity index: the ids of items probably already on disk,
//! recovered from file names of the shape `<anything>-<id>.<ext>`.
//!
//! A file name does not tell where the title ends and the id begins when the
//! id holds hyphens, so every hyphen-aligned suffix of the id found is a
//! candidate. This admits false positives and never misses the true id.
use vstd::prelude::*;

use crate::text::{chars_of, str_eq, string_of};

verus! {

broadcast use vstd::string::group_string_axioms;

/// The characters an id may hold in a file name.
pub open spec fn is_id_char(c: char) -> bool {
    ('a' <= c <= 'z') || ('A' <= c <= 'Z') || ('0' <= c <= '9') || c == '_' || c == '-'
}

pub open spec fn ext3(a: char, b: char, c: char) -> bool {
    (a, b, c) == ('m', 'p', '4') || (a, b, c) == ('m', 'k', 'v') || (a, b, c) == ('m', 'o', 'v')
        || (a, b, c) == ('a', 'v', 'i') || (a, b, c) == ('m', 'p', '3') || (a, b, c) == (
    'o', 'g', 'g') || (a, b, c) == ('a', 'a', 'c') || (a, b, c) == ('3', 'g', 'p') || (a, b, c)
        == ('w', 'a', 'v') || (a, b, c) == ('d', 's', 'f')
}

pub open spec fn ext4(a: char, b: char, c: char, d: char) -> bool {
    (a, b, c, d) == ('w', 'e', 'b', 'm') || (a, b, c, d) == ('f', 'l', 'a', 'c') || (a, b, c, d)
        == ('a', 'l', 'a', 'c') || (a, b, c, d) == ('a', 'i', 'f', 'f')
}

/// The media extensions that the index recognises.
pub open spec fn media_ext(e: Seq<char>) -> bool {
    (e.len() == 3 && ext3(e[0], e[1], e[2])) || (e.len() == 4 && ext4(e[0], e[1], e[2], e[3]))
}

/// `s` matches `-<id>.<ext>` with the hyphen at `p` and the dot at `d`, the
/// extension ending the name.
pub open spec fn id_match_at(s: Seq<char>, p: int, d: int) -> bool {
    &&& 0 <= p
    &&& p + 1 < d < s.len()
    &&& s[p] == '-'
    &&& forall|j: int| p < j < d ==> is_id_char(s[j])
    &&& s[d] == '.'
    &&& media_ext(s.subrange(d + 1, s.len() as int))
}

/// The match that starts leftmost, the one a regex search reports.
pub open spec fn leftmost_match(s: Seq<char>, p: int, d: int) -> bool {
    id_match_at(s, p, d) && forall|pb: int, db: int| id_match_at(s, pb, db) ==> p <= pb
}

/// The id that a file name carries, if it has the indexed shape.
pub open spec fn filename_id(s: Seq<char>) -> Option<Seq<char>> {
    if exists|p: int, d: int| leftmost_match(s, p, d) {
        let (p, d) = choose|p: int, d: int| leftmost_match(s, p, d);
        Some(s.subrange(p + 1, d))
    } else {
        None
    }
}

/// The candidates for an id: the id itself and its suffix after each hyphen.
pub open spec fn candidate_set(id: Seq<char>) -> Set<Seq<char>> {
    Set::new(
        |c: Seq<char>|
            c == id || exists|i: int|
                0 <= i < id.len() && id[i] == '-' && c == id.subrange(i + 1, id.len() as int),
    )
}

/// One of the first `i` names carries an id of which `c` is a candidate.
pub open spec fn names_hold(names: Seq<Seq<char>>, i: int, c: Seq<char>) -> bool {
    exists|k: int|
        0 <= k < i && filename_id(names[k]) is Some && #[trigger] candidate_set(
            filename_id(names[k])->0,
        ).contains(c)
}

/// Every candidate of every indexed file name.
pub open spec fn names_index(names: Seq<Seq<char>>) -> Set<Seq<char>> {
    Set::new(|c: Seq<char>| names_hold(names, names.len() as int, c))
}

/// One of `ids` is `c`.
pub open spec fn ids_hold(ids: Seq<String>, c: Seq<char>) -> bool {
    exists|k: int| 0 <= k < ids.len() && #[trigger] ids[k]@ == c
}

pub open spec fn count_char(s: Seq<char>, c: char) -> nat
    decreases s.len(),
{
    if s.len() == 0 {
        0
    } else {
        count_char(s.drop_last(), c) + if s.last() == c {
            1nat
        } else {
            0nat
        }
    }
}

pub proof fn lemma_split_len(s: Seq<char>, c: char)
    ensures
        crate::text::split_on(s, c).len() == count_char(s, c) + 1,
    decreases s.len(),
{
    if s.len() > 0 {
        lemma_split_len(s.drop_last(), c);
        crate::text::lemma_split_on_nonempty(s.drop_last(), c);
    }
}

/// A media extension holds no dot, so the dot before it is the last one.
proof fn lemma_match_dot_unique(s: Seq<char>, pa: int, da: int, pb: int, db: int)
    requires
        id_match_at(s, pa, da),
        id_match_at(s, pb, db),
    ensures
        da == db,
{
    if da < db {
        assert(s.subrange(da + 1, s.len() as int)[db - da - 1] == '.');
    } else if db < da {
        assert(s.subrange(db + 1, s.len() as int)[da - db - 1] == '.');
    }
}

fn is_id_char_exec(c: char) -> (r: bool)
    ensures
        r == is_id_char(c),
{
    ('a' <= c && c <= 'z') || ('A' <= c && c <= 'Z') || ('0' <= c && c <= '9') || c == '_' || c
        == '-'
}

fn is_media_ext(cs: &[char], from: usize) -> (r: bool)
    requires
        from <= cs@.len(),
    ensures
        r == media_ext(cs@.subrange(from as int, cs@.len() as int)),
{
    let n = cs.len() - from;
    if n == 3 {
        let (a, b, c) = (cs[from], cs[from + 1], cs[from + 2]);
        (a == 'm' && b == 'p' && c == '4') || (a == 'm' && b == 'k' && c == 'v') || (a == 'm' && b
            == 'o' && c == 'v') || (a == 'a' && b == 'v' && c == 'i') || (a == 'm' && b == 'p' && c
            == '3') || (a == 'o' && b == 'g' && c == 'g') || (a == 'a' && b == 'a' && c == 'c') || (
        a == '3' && b == 'g' && c == 'p') || (a == 'w' && b == 'a' && c == 'v') || (a == 'd' && b
            == 's' && c == 'f')
    } else if n == 4 {
        let (a, b, c, d) = (cs[from], cs[from + 1], cs[from + 2], cs[from + 3]);
        (a == 'w' && b == 'e' && c == 'b' && d == 'm') || (a == 'f' && b == 'l' && c == 'a' && d
            == 'c') || (a == 'a' && b == 'l' && c == 'a' && d == 'c') || (a == 'a' && b == 'i' && c
            == 'f' && d == 'f')
    } else {
        false
    }
}

/// The id carried by a file name of the shape `<anything>-<id>.<ext>`.
pub fn video_id_of_filename(name: &str) -> (r: Option<String>)
    ensures
        r is Some == filename_id(name@) is Some,
        r matches Some(id) ==> id@ == filename_id(name@)->0,
{
    let cs = chars_of(name);
    let ghost s = name@;
    let n = cs.len();
    let mut d: usize = n;
    while d > 0 && cs[d - 1] != '.'
        invariant
            d <= n == s.len(),
            cs@ == s,
            forall|j: int| d <= j < n ==> s[j] != '.',
        decreases d,
    {
        d = d - 1;
    }
    if d == 0 {
        assert forall|p: int, e: int| !id_match_at(s, p, e) by {
            if id_match_at(s, p, e) {
                assert(s[e] == '.');
            }
        }
        return None;
    }
    let d = d - 1;
    if !is_media_ext(cs.as_slice(), d + 1) {
        assert forall|p: int, e: int| !id_match_at(s, p, e) by {
            if id_match_at(s, p, e) {
                if e < d {
                    assert(s.subrange(e + 1, s.len() as int)[d - e - 1] == '.');
                }
            }
        }
        return None;
    }
    let mut q: usize = d;
    while q > 0 && is_id_char_exec(cs[q - 1])
        invariant
            q <= d < n == s.len(),
            cs@ == s,
            forall|j: int| q <= j < d ==> is_id_char(s[j]),
        decreases q,
    {
        q = q - 1;
    }
    let mut p: usize = q;
    while p + 1 < d && cs[p] != '-'
        invariant
            q <= p <= d < n == s.len(),
            cs@ == s,
            forall|j: int| q <= j < p ==> s[j] != '-',
        decreases d - p,
    {
        p = p + 1;
    }
    assert(s[d as int] == '.');
    assert(media_ext(s.subrange(d + 1, s.len() as int)));
    // Any match ends at this dot and starts inside the run of id characters.
    assert forall|pb: int, db: int| id_match_at(s, pb, db) implies db == d && q <= pb by {
        if db < d {
            assert(s.subrange(db + 1, s.len() as int)[d - db - 1] == '.');
        }
        if pb < q {
            assert(is_id_char(s[q - 1]));
        }
    }
    if p + 1 >= d {
        assert forall|pb: int, db: int| !id_match_at(s, pb, db) by {
            if id_match_at(s, pb, db) {
                assert(s[pb] == '-');
            }
        }
        return None;
    }
    assert(leftmost_match(s, p as int, d as int));
    let ghost (cp, cd) = choose|pb: int, db: int| leftmost_match(s, pb, db);
    assert(cp == p && cd == d);
    Some(string_of(cs.as_slice(), p + 1, d))
}

/// Each candidate after the first is the suffix after a hyphen before `i`.
#[verifier::opaque]
spec fn suffixes_listed(r: Seq<String>, s: Seq<char>) -> bool {
    forall|k: int|
        #![trigger r[k]]
        1 <= k < r.len() ==> exists|j: int|
            0 <= j < s.len() && s[j] == '-' && r[k]@ == s.subrange(j + 1, s.len() as int)
}

/// The suffix after each hyphen before `i` is a candidate.
#[verifier::opaque]
spec fn suffixes_covered(r: Seq<String>, s: Seq<char>, i: int) -> bool {
    forall|j: int|
        0 <= j < i && s[j] == '-' ==> exists|k: int|
            0 <= k < r.len() && #[trigger] r[k]@ == s.subrange(j + 1, s.len() as int)
}

/// Candidates get strictly shorter along `r`.
#[verifier::opaque]
spec fn shrinking(r: Seq<String>) -> bool {
    forall|k1: int, k2: int| 0 <= k1 < k2 < r.len() ==> r[k1]@.len() > r[k2]@.len()
}

/// `r` lists the candidates of `s` for the hyphens before position `i`.
spec fn candidates_upto(r: Seq<String>, s: Seq<char>, i: int) -> bool {
    &&& r.len() == count_char(s.take(i), '-') + 1
    &&& r[0]@ == s
    &&& r[r.len() - 1]@.len() >= s.len() - i
    &&& shrinking(r)
    &&& suffixes_listed(r, s)
    &&& suffixes_covered(r, s, i)
}

proof fn lemma_listed_step(r0: Seq<String>, x: String, s: Seq<char>, i: int)
    requires
        suffixes_listed(r0, s),
        0 <= i < s.len(),
        s[i] == '-',
        x@ == s.subrange(i + 1, s.len() as int),
    ensures
        suffixes_listed(r0.push(x), s),
{
    reveal(suffixes_listed);
    let r1 = r0.push(x);
    assert forall|k: int|
        #![trigger r1[k]]
        1 <= k < r1.len() implies exists|j: int|
            0 <= j < s.len() && s[j] == '-' && r1[k]@ == s.subrange(j + 1, s.len() as int) by {
        if k < r0.len() {
            let rk = r0[k];
            let j = choose|j: int| 0 <= j < s.len() && s[j] == '-' && r0[k]@ == s.subrange(j + 1, s.len() as int);
            assert(r1[k] == r0[k]);
        } else {
            assert(r1[k] == x);
        }
    }
}

proof fn lemma_covered_step(r0: Seq<String>, x: String, s: Seq<char>, i: int)
    requires
        suffixes_covered(r0, s, i),
        0 <= i < s.len(),
        s[i] == '-',
        x@ == s.subrange(i + 1, s.len() as int),
    ensures
        suffixes_covered(r0.push(x), s, i + 1),
{
    reveal(suffixes_covered);
    let r1 = r0.push(x);
    let n = s.len() as int;
    assert forall|j: int|
        0 <= j < i + 1 && s[j] == '-' implies exists|k: int|
            0 <= k < r1.len() && #[trigger] r1[k]@ == s.subrange(j + 1, n) by {
        if j < i {
            let k = choose|k: int| 0 <= k < r0.len() && #[trigger] r0[k]@ == s.subrange(j + 1, n);
            assert(r1[k] == r0[k]);
        } else {
            assert(r1[r0.len() as int] == x);
        }
    }
}

proof fn lemma_unchanged_step(r: Seq<String>, s: Seq<char>, i: int)
    requires
        suffixes_covered(r, s, i),
        0 <= i < s.len(),
        s[i] != '-',
    ensures
        suffixes_covered(r, s, i + 1),
{
    reveal(suffixes_covered);
    assert forall|j: int|
        0 <= j < i + 1 && s[j] == '-' implies exists|k: int|
            0 <= k < r.len() && #[trigger] r[k]@ == s.subrange(j + 1, s.len() as int) by {
        assert(j != i);
    }
}

proof fn lemma_shrinking_step(r0: Seq<String>, x: String)
    requires
        shrinking(r0),
        r0.len() >= 1,
        r0[r0.len() - 1]@.len() > x@.len(),
    ensures
        shrinking(r0.push(x)),
{
    reveal(shrinking);
    let r1 = r0.push(x);
    assert forall|k1: int, k2: int| 0 <= k1 < k2 < r1.len() implies r1[k1]@.len() > r1[k2]@.len() by {
        assert(r1[k1] == r0[k1]);
        if k2 < r0.len() {
            assert(r1[k2] == r0[k2]);
        } else {
            if k1 < r0.len() - 1 {
                assert(r0[k1]@.len() > r0[r0.len() - 1]@.len());
            }
        }
    }
}

proof fn lemma_candidates_step(r0: Seq<String>, r1: Seq<String>, s: Seq<char>, i: int)
    requires
        candidates_upto(r0, s, i),
        0 <= i < s.len(),
        s[i] == '-' ==> r1 == r0.push(r1.last()) && r1.last()@ == s.subrange(i + 1, s.len() as int),
        s[i] != '-' ==> r1 == r0,
    ensures
        candidates_upto(r1, s, i + 1),
{
    assert(s.take(i + 1).drop_last() == s.take(i));
    if s[i] == '-' {
        let x = r1.last();
        lemma_listed_step(r0, x, s, i);
        lemma_covered_step(r0, x, s, i);
        reveal(shrinking);
        if r0.len() > 1 {
            assert(r0[0]@.len() > r0[r0.len() - 1]@.len());
        }
        lemma_shrinking_step(r0, x);
        assert(r1[0] == r0[0]);
    } else {
        lemma_unchanged_step(r0, s, i);
    }
}

/// The candidates for an id: first the id itself, then its suffix after each
/// hyphen, from left to right.
pub fn id_candidates(id: &str) -> (r: Vec<String>)
    ensures
        r@.len() == crate::text::split_on(id@, '-').len(),
        r@[0]@ == id@,
        forall|k1: int, k2: int| 0 <= k1 < k2 < r@.len() ==> r@[k1]@.len() > r@[k2]@.len(),
        forall|c: Seq<char>|
            candidate_set(id@).contains(c) <==> exists|k: int| 0 <= k < r@.len() && r@[k]@ == c,
{
    let cs = chars_of(id);
    let ghost s = id@;
    let n = cs.len();
    let mut r: Vec<String> = Vec::new();
    r.push(string_of(cs.as_slice(), 0, n));
    assert(s.subrange(0, n as int) == s);
    let mut i: usize = 0;
    assert(s.take(0) =~= seq![]);
    proof {
        reveal(shrinking);
        reveal(suffixes_listed);
        reveal(suffixes_covered);
    }
    while i < n
        invariant
            i <= n == s.len(),
            cs@ == s,
            candidates_upto(r@, s, i as int),
        decreases n - i,
    {
        let ghost old_r = r@;
        if cs[i] == '-' {
            let suffix = string_of(cs.as_slice(), i + 1, n);
            r.push(suffix);
            assert(r@ == old_r.push(r@.last()));
        }
        proof {
            lemma_candidates_step(old_r, r@, s, i as int);
        }
        i = i + 1;
    }
    assert(s.take(n as int) == s);
    proof {
        reveal(shrinking);
        reveal(suffixes_listed);
        reveal(suffixes_covered);
        lemma_split_len(s, '-');
        assert forall|c: Seq<char>|
            candidate_set(s).contains(c) implies exists|k: int|
                0 <= k < r@.len() && r@[k]@ == c by {
            if c != s {
                let j = choose|j: int|
                    0 <= j < s.len() && s[j] == '-' && c == s.subrange(j + 1, s.len() as int);
                assert(s[j] == '-');
            } else {
                assert(r@[0]@ == c);
            }
        }
    }
    r
}

/// A set of candidate ids for one directory.
#[derive(Debug)]
pub struct ApproximateIndex {
    pub ids: Vec<String>,
}

impl View for ApproximateIndex {
    type V = Set<Seq<char>>;

    open spec fn view(&self) -> Set<Seq<char>> {
        Set::new(|c: Seq<char>| ids_hold(self.ids@, c))
    }
}

impl ApproximateIndex {
    /// Whether `id` is one of the candidates.
    pub fn contains(&self, id: &str) -> (r: bool)
        ensures
            r == self@.contains(id@),
    {
        let mut i: usize = 0;
        while i < self.ids.len()
            invariant
                i <= self.ids@.len(),
                forall|k: int| 0 <= k < i ==> self.ids@[k]@ != id@,
            decreases self.ids.len() - i,
        {
            if str_eq(self.ids[i].as_str(), id) {
                return true;
            }
            i = i + 1;
        }
        false
    }
}

/// Indexes the names of the regular files found under one directory.
pub fn build_approximate_index(names: &Vec<String>) -> (r: ApproximateIndex)
    ensures
        r@ == names_index(names@.map_values(|n: String| n@)),
{
    let ghost ns = names@.map_values(|n: String| n@);
    let mut ids: Vec<String> = Vec::new();
    let mut i: usize = 0;
    while i < names.len()
        invariant
            i <= names@.len(),
            ns == names@.map_values(|n: String| n@),
            forall|c: Seq<char>|
                #![trigger ids_hold(ids@, c)]
                #![trigger names_hold(ns, i as int, c)]
                ids_hold(ids@, c) == names_hold(ns, i as int, c),
        decreases names.len() - i,
    {
        match video_id_of_filename(names[i].as_str()) {
            None => {
                assert forall|c: Seq<char>| #[trigger]
                    names_hold(ns, i + 1, c) == names_hold(ns, i as int, c) by {
                    if names_hold(ns, i + 1, c) {
                        let k = choose|k: int|
                            0 <= k < i + 1 && filename_id(ns[k]) is Some && #[trigger] candidate_set(
                                filename_id(ns[k])->0,
                            ).contains(c);
                        assert(k < i);
                    }
                }
            },
            Some(id) => {
                let ghost before = ids@;
                let mut cands = id_candidates(id.as_str());
                let ghost added = cands@;
                ids.append(&mut cands);
                assert(ids@ == before + added);
                assert forall|c: Seq<char>| #[trigger]
                    ids_hold(ids@, c) == names_hold(ns, i + 1, c) by {
                    if ids_hold(ids@, c) {
                        let k = choose|k: int| 0 <= k < ids@.len() && #[trigger] ids@[k]@ == c;
                        if k < before.len() {
                            assert(before[k]@ == c);
                            assert(ids_hold(before, c));
                        } else {
                            assert(added[k - before.len()]@ == c);
                            assert(candidate_set(id@).contains(c));
                            assert(ns[i as int] == names@[i as int]@);
                            assert(candidate_set(filename_id(ns[i as int])->0).contains(c));
                        }
                    }
                    if names_hold(ns, i + 1, c) {
                        let k = choose|k: int|
                            0 <= k < i + 1 && filename_id(ns[k]) is Some && #[trigger] candidate_set(
                                filename_id(ns[k])->0,
                            ).contains(c);
                        if k < i {
                            assert(names_hold(ns, i as int, c));
                            assert(ids_hold(before, c));
                            let k2 = choose|k2: int| 0 <= k2 < before.len() && #[trigger] before[k2]@ == c;
                            assert(ids@[k2]@ == c);
                        } else {
                            assert(ns[i as int] == names@[i as int]@);
                            assert(candidate_set(id@).contains(c));
                            let k2 = choose|k2: int| 0 <= k2 < added.len() && #[trigger] added[k2]@ == c;
                            assert(ids@[before.len() + k2]@ == c);
                        }
                    }
                }
            },
        }
        i = i + 1;
    }
    let r = ApproximateIndex { ids };
    assert(r@ =~= names_index(ns));
    r
}

proof fn lemma_leftmost_exists(s: Seq<char>, p: int, d: int)
    requires
        id_match_at(s, p, d),
    ensures
        exists|pb: int, db: int| leftmost_match(s, pb, db),
    decreases p,
{
    if exists|pb: int, db: int| id_match_at(s, pb, db) && pb < p {
        let (pb, db) = choose|pb: int, db: int| id_match_at(s, pb, db) && pb < p;
        lemma_leftmost_exists(s, pb, db);
    } else {
        assert(leftmost_match(s, p, d));
    }
}

/// A file saved as `<title>-<id>.<ext>`, with an id of id characters and a
/// media extension, is indexed under a set of candidates that holds that id,
/// whatever the title holds.
pub proof fn lemma_true_id_is_candidate(title: Seq<char>, id: Seq<char>, ext: Seq<char>)
    requires
        id.len() > 0,
        forall|i: int| 0 <= i < id.len() ==> is_id_char(id[i]),
        media_ext(ext),
    ensures
        filename_id(title + seq!['-'] + id + seq!['.'] + ext) is Some,
        candidate_set(filename_id(title + seq!['-'] + id + seq!['.'] + ext)->0).contains(id),
{
    let s = title + seq!['-'] + id + seq!['.'] + ext;
    let hp = title.len() as int;
    let hd = hp + 1 + id.len();
    assert(s.subrange(hd + 1, s.len() as int) =~= ext);
    assert forall|j: int| hp < j < hd implies is_id_char(s[j]) by {
        assert(s[j] == id[j - hp - 1]);
    }
    assert(id_match_at(s, hp, hd));
    lemma_leftmost_exists(s, hp, hd);
    let (lp, ld) = choose|pb: int, db: int| leftmost_match(s, pb, db);
    lemma_match_dot_unique(s, lp, ld, hp, hd);
    let found = s.subrange(lp + 1, ld);
    assert(filename_id(s) == Some(found));
    if lp == hp {
        assert(found =~= id);
    } else {
        let i = hp - lp - 1;
        assert(found[i] == '-');
        assert(found.subrange(i + 1, found.len() as int) =~= id);
    }
}

/// An index built over names that include such a file holds the true id.
pub proof fn lemma_index_holds_true_id(
    names: Seq<Seq<char>>,
    k: int,
    title: Seq<char>,
    id: Seq<char>,
    ext: Seq<char>,
)
    requires
        0 <= k < names.len(),
        names[k] == title + seq!['-'] + id + seq!['.'] + ext,
        id.len() > 0,
        forall|i: int| 0 <= i < id.len() ==> is_id_char(id[i]),
        media_ext(ext),
    ensures
        names_index(names).contains(id),
{
    lemma_true_id_is_candidate(title, id, ext);
    assert(names_hold(names, names.len() as int, id));
}

} // verus!
