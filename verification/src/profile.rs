//! Profiles: ordered lists of sound-font names, their totals against the
//! library, and the comparison of two profiles.
use vstd::prelude::*;

use crate::library::{find_font, find_font_index, lemma_find_font_from, SoundFont};
use crate::sorting::{lemma_strictly_sorted_unique, sort_distinct, strictly_sorted};
use crate::text::{lemma_seq_lt_irreflexive, views};

verus! {

/// A saved profile: an ordered list of sound-font names and an optional
/// description. The order of `fonts` is the slot order (slot 1 = index 0).
pub struct Profile {
    pub name: String,
    pub description: Option<String>,
    pub fonts: Vec<String>,
}

/// The set of names in a profile.
pub open spec fn font_set(p: Profile) -> Set<Seq<char>> {
    views(p.fonts@).to_set()
}

/// The size of the first library font named `name`, 0 where there is none.
pub open spec fn size_of_name(lib: Seq<SoundFont>, name: Seq<char>) -> nat {
    match find_font(lib, name) {
        Some(i) => lib[i].size_bytes as nat,
        None => 0,
    }
}

/// The file count of the first library font named `name`, 0 where there is
/// none.
pub open spec fn files_of_name(lib: Seq<SoundFont>, name: Seq<char>) -> nat {
    match find_font(lib, name) {
        Some(i) => lib[i].file_count as nat,
        None => 0,
    }
}

/// The sum of `size_of_name` over `names`, a name counted as often as it occurs.
pub open spec fn total_size_of(lib: Seq<SoundFont>, names: Seq<Seq<char>>) -> nat
    decreases names.len(),
{
    if names.len() == 0 {
        0
    } else {
        total_size_of(lib, names.drop_last()) + size_of_name(lib, names.last())
    }
}

/// The sum of `files_of_name` over `names`.
pub open spec fn total_files_of(lib: Seq<SoundFont>, names: Seq<Seq<char>>) -> nat
    decreases names.len(),
{
    if names.len() == 0 {
        0
    } else {
        total_files_of(lib, names.drop_last()) + files_of_name(lib, names.last())
    }
}

proof fn lemma_totals_prefix(lib: Seq<SoundFont>, names: Seq<Seq<char>>, n: int)
    requires
        0 <= n <= names.len(),
    ensures
        total_size_of(lib, names.take(n)) <= total_size_of(lib, names),
        total_files_of(lib, names.take(n)) <= total_files_of(lib, names),
    decreases names.len(),
{
    if n < names.len() {
        lemma_totals_prefix(lib, names.drop_last(), n);
        assert(names.drop_last().take(n) =~= names.take(n));
    } else {
        assert(names.take(n) =~= names);
    }
}

/// Whether `name` occurs in `v`.
pub fn contains_text(v: &Vec<String>, name: &String) -> (r: bool)
    ensures
        r == views(v@).contains(name@),
{
    let mut i: usize = 0;
    while i < v.len()
        invariant
            i <= v.len(),
            forall|k: int| 0 <= k < i ==> v@[k]@ != name@,
        decreases v.len() - i,
    {
        if v[i] == *name {
            assert(views(v@)[i as int] == name@);
            return true;
        }
        i = i + 1;
    }
    proof {
        if views(v@).contains(name@) {
            let k = choose|k: int| 0 <= k < views(v@).len() && views(v@)[k] == name@;
            assert(v@[k]@ == name@);
        }
    }
    false
}

impl Profile {
    /// An empty profile named `name`.
    pub fn new(name: String) -> (r: Profile)
        ensures
            r.name == name,
            r.description is None,
            r.fonts@.len() == 0,
    {
        Profile { name, description: None, fonts: Vec::new() }
    }

    /// Total size of the fonts of this profile, or `None` where it does not
    /// fit in a `u64`.
    pub fn checked_total_size(&self, library: &Vec<SoundFont>) -> (r: Option<u64>)
        ensures
            match r {
                Some(t) => t == total_size_of(library@, views(self.fonts@)),
                None => total_size_of(library@, views(self.fonts@)) > u64::MAX,
            },
    {
        let ghost names = views(self.fonts@);
        let mut total: u64 = 0;
        let mut i: usize = 0;
        while i < self.fonts.len()
            invariant
                names == views(self.fonts@),
                i <= self.fonts.len(),
                total == total_size_of(library@, names.take(i as int)),
            decreases self.fonts.len() - i,
        {
            proof {
                assert(names.take(i + 1).drop_last() =~= names.take(i as int));
                lemma_totals_prefix(library@, names, i + 1);
                lemma_find_font_from(library@, names[i as int], 0);
            }
            match find_font_index(library, &self.fonts[i]) {
                Some(k) => {
                    let add = library[k].size_bytes;
                    if total > u64::MAX - add {
                        return None;
                    }
                    total = total + add;
                },
                None => {},
            }
            i = i + 1;
        }
        assert(names.take(self.fonts.len() as int) =~= names);
        Some(total)
    }

    /// Total file count of the fonts of this profile, or `None` where it does
    /// not fit in a `u64`.
    pub fn checked_total_files(&self, library: &Vec<SoundFont>) -> (r: Option<u64>)
        ensures
            match r {
                Some(t) => t == total_files_of(library@, views(self.fonts@)),
                None => total_files_of(library@, views(self.fonts@)) > u64::MAX,
            },
    {
        let ghost names = views(self.fonts@);
        let mut total: u64 = 0;
        let mut i: usize = 0;
        while i < self.fonts.len()
            invariant
                names == views(self.fonts@),
                i <= self.fonts.len(),
                total == total_files_of(library@, names.take(i as int)),
            decreases self.fonts.len() - i,
        {
            proof {
                assert(names.take(i + 1).drop_last() =~= names.take(i as int));
                lemma_totals_prefix(library@, names, i + 1);
                lemma_find_font_from(library@, names[i as int], 0);
            }
            match find_font_index(library, &self.fonts[i]) {
                Some(k) => {
                    let add = library[k].file_count;
                    if total > u64::MAX - add {
                        return None;
                    }
                    total = total + add;
                },
                None => {},
            }
            i = i + 1;
        }
        assert(names.take(self.fonts.len() as int) =~= names);
        Some(total)
    }

    /// Total size of the fonts of this profile, given the full library: for
    /// each name, the size of the first library font of that name; names not
    /// in the library count 0.
    pub fn total_size(&self, library: &Vec<SoundFont>) -> (r: u64)
        requires
            total_size_of(library@, views(self.fonts@)) <= u64::MAX,
        ensures
            r == total_size_of(library@, views(self.fonts@)),
    {
        match self.checked_total_size(library) {
            Some(t) => t,
            None => 0,
        }
    }

    /// Total file count across the fonts of this profile, counted as in
    /// `total_size`.
    pub fn total_files(&self, library: &Vec<SoundFont>) -> (r: u64)
        requires
            total_files_of(library@, views(self.fonts@)) <= u64::MAX,
        ensures
            r == total_files_of(library@, views(self.fonts@)),
    {
        match self.checked_total_files(library) {
            Some(t) => t,
            None => 0,
        }
    }
}

/// The result of comparing two profiles.
pub struct ProfileDiff {
    pub only_in_a: Vec<String>,
    pub only_in_b: Vec<String>,
    pub in_both: Vec<String>,
}

/// `d` is the comparison of `a` with `b`: the names only in `a`, only in
/// `b`, and in both, each list sorted and without repeats.
pub open spec fn is_diff_of(d: ProfileDiff, a: Profile, b: Profile) -> bool {
    &&& strictly_sorted(views(d.only_in_a@))
    &&& strictly_sorted(views(d.only_in_b@))
    &&& strictly_sorted(views(d.in_both@))
    &&& views(d.only_in_a@).to_set() == font_set(a).difference(font_set(b))
    &&& views(d.only_in_b@).to_set() == font_set(b).difference(font_set(a))
    &&& views(d.in_both@).to_set() == font_set(a).intersect(font_set(b))
}

/// Appending an element adds it to the set of elements.
pub proof fn lemma_push_to_set(s: Seq<Seq<char>>, x: Seq<char>)
    ensures
        s.push(x).to_set() == s.to_set().insert(x),
{
    assert forall|y: Seq<char>| s.push(x).to_set().contains(y) implies s.to_set().insert(x).contains(
        y,
    ) by {
        let k = choose|k: int| 0 <= k < s.push(x).len() && s.push(x)[k] == y;
        if k < s.len() {
            assert(s[k] == y);
        }
    }
    assert forall|y: Seq<char>| s.to_set().insert(x).contains(y) implies s.push(x).to_set().contains(
        y,
    ) by {
        if y == x {
            assert(s.push(x)[s.len() as int] == x);
        } else {
            let k = choose|k: int| 0 <= k < s.len() && s[k] == y;
            assert(s.push(x)[k] == y);
        }
    }
    assert(s.push(x).to_set() =~= s.to_set().insert(x));
}

/// The distinct names of `src` that are (`inside`) or are not in `other`.
pub(crate) fn members(src: &Vec<String>, other: &Vec<String>, inside: bool) -> (r: Vec<String>)
    ensures
        views(r@).no_duplicates(),
        inside ==> views(r@).to_set() == views(src@).to_set().intersect(views(other@).to_set()),
        !inside ==> views(r@).to_set() == views(src@).to_set().difference(views(other@).to_set()),
{
    let ghost want = if inside {
        views(src@).to_set().intersect(views(other@).to_set())
    } else {
        views(src@).to_set().difference(views(other@).to_set())
    };
    let mut r: Vec<String> = Vec::new();
    let mut i: usize = 0;
    while i < src.len()
        invariant
            i <= src.len(),
            want == (if inside {
                views(src@).to_set().intersect(views(other@).to_set())
            } else {
                views(src@).to_set().difference(views(other@).to_set())
            }),
            views(r@).no_duplicates(),
            views(r@).to_set() == views(src@.take(i as int)).to_set().intersect(want),
        decreases src.len() - i,
    {
        let in_other = contains_text(other, &src[i]);
        let seen = contains_text(&r, &src[i]);
        let ghost old_r = views(r@);
        proof {
            assert(views(src@.take(i + 1)) =~= views(src@.take(i as int)).push(src@[i as int]@));
            assert(views(src@).contains(src@[i as int]@)) by {
                assert(views(src@)[i as int] == src@[i as int]@);
            }
        }
        let ghost x = src@[i as int]@;
        proof {
            lemma_push_to_set(views(src@.take(i as int)), x);
            assert(want.contains(x) == (in_other == inside));
        }
        if in_other == inside && !seen {
            r.push(src[i].clone());
            proof {
                assert(views(r@) =~= old_r.push(x));
                lemma_push_to_set(old_r, x);
                assert(views(r@).to_set() =~= views(src@.take(i + 1)).to_set().intersect(want));
            }
        } else {
            proof {
                if seen {
                    assert(old_r.to_set().contains(x));
                }
                assert(views(r@).to_set() =~= views(src@.take(i + 1)).to_set().intersect(want));
            }
        }
        i = i + 1;
    }
    proof {
        assert(src@.take(src.len() as int) =~= src@);
        assert forall|x: Seq<char>| want.contains(x) implies views(src@).to_set().contains(x) by {}
        assert(views(r@).to_set() =~= want);
    }
    r
}

/// Compute which fonts are unique to each profile and which are shared;
/// each list is sorted by code point and holds each name once.
pub fn diff_profiles(a: &Profile, b: &Profile) -> (r: ProfileDiff)
    ensures
        is_diff_of(r, *a, *b),
{
    let only_in_a = sort_distinct(&members(&a.fonts, &b.fonts, false));
    let only_in_b = sort_distinct(&members(&b.fonts, &a.fonts, false));
    let in_both = sort_distinct(&members(&a.fonts, &b.fonts, true));
    ProfileDiff { only_in_a, only_in_b, in_both }
}

/// Swapping the two profiles swaps the names only in one of them and keeps
/// the shared names.
pub proof fn lemma_diff_symmetric(a: Profile, b: Profile, d: ProfileDiff, e: ProfileDiff)
    requires
        is_diff_of(d, a, b),
        is_diff_of(e, b, a),
    ensures
        views(d.only_in_a@) == views(e.only_in_b@),
        views(d.only_in_b@) == views(e.only_in_a@),
        views(d.in_both@) == views(e.in_both@),
{
    assert(font_set(a).intersect(font_set(b)) =~= font_set(b).intersect(font_set(a)));
    lemma_strictly_sorted_unique(views(d.only_in_a@), views(e.only_in_b@));
    lemma_strictly_sorted_unique(views(d.only_in_b@), views(e.only_in_a@));
    lemma_strictly_sorted_unique(views(d.in_both@), views(e.in_both@));
}

/// A strictly sorted sequence holds no element twice.
pub proof fn lemma_strictly_sorted_no_duplicates(s: Seq<Seq<char>>)
    requires
        strictly_sorted(s),
    ensures
        s.no_duplicates(),
{
    assert forall|i: int, j: int| 0 <= i < s.len() && 0 <= j < s.len() && i != j implies s[i]
        != s[j] by {
        if s[i] == s[j] {
            lemma_seq_lt_irreflexive(s[i]);
            assert(i < j ==> crate::text::seq_lt(s[i], s[j]));
            assert(j < i ==> crate::text::seq_lt(s[j], s[i]));
        }
    }
}

/// The shared names and the names only in `a` together count the distinct
/// names of `a`; likewise for `b`.
pub proof fn lemma_diff_counts(a: Profile, b: Profile, d: ProfileDiff)
    requires
        is_diff_of(d, a, b),
    ensures
        d.in_both@.len() + d.only_in_a@.len() == font_set(a).len(),
        d.in_both@.len() + d.only_in_b@.len() == font_set(b).len(),
{
    let sa = font_set(a);
    let sb = font_set(b);
    lemma_strictly_sorted_no_duplicates(views(d.only_in_a@));
    lemma_strictly_sorted_no_duplicates(views(d.only_in_b@));
    lemma_strictly_sorted_no_duplicates(views(d.in_both@));
    views(d.only_in_a@).unique_seq_to_set();
    views(d.only_in_b@).unique_seq_to_set();
    views(d.in_both@).unique_seq_to_set();
    assert(sa =~= sa.intersect(sb) + sa.difference(sb));
    assert(sb =~= sa.intersect(sb) + sb.difference(sa));
    vstd::set_lib::lemma_set_disjoint_lens(sa.intersect(sb), sa.difference(sb));
    vstd::set_lib::lemma_set_disjoint_lens(sa.intersect(sb), sb.difference(sa));
    assert(sa.intersect(sb).disjoint(sa.difference(sb)));
    assert(sa.intersect(sb).disjoint(sb.difference(sa)));
}

} // verus!
