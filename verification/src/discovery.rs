//! Directory scanning: recognize cookie files, derive profile identities,
//! and produce the ordered profile list.
use vstd::prelude::*;
use vstd::seq_lib::group_to_multiset_ensures;
use vstd::string::StringExecFns;
use crate::naming::avatar_file_for;
use crate::naming::avatar_filename;
use crate::naming::cookie_profile_id;
use crate::naming::extract_profile_id;
use crate::naming::format_id_chars;
use crate::naming::is_cookie_filename;
use crate::naming::matches_convention;
use crate::naming::profile_emoji;
use crate::naming::spec_emoji;
use crate::naming::spec_format;
use crate::text::chars_eq;
use crate::text::chars_lt;
use crate::text::lex_leq;
use crate::text::lex_lt;
use crate::text::lemma_lex_leq_trans;
use crate::text::lemma_lex_lt_trans;
use crate::text::lemma_lex_trichotomy;
use crate::text::str_to_chars;
use crate::text::string_from_chars;

verus! {

broadcast use
    group_to_multiset_ensures,
    vstd::multiset::group_multiset_axioms,
    vstd::multiset::group_multiset_properties,
;

/// A discovered, user-selectable profile.
#[derive(Clone, Debug)]
pub struct Profile {
    /// Raw identifier extracted from the filename.
    pub name: String,
    /// The filename on disk holding this profile's cookie payload.
    pub cookie_file: String,
    /// Human-formatted version of `name`.
    pub display_name: String,
    /// Decorative icon assigned from the profile's position.
    pub emoji: String,
    /// The conventional avatar filename, when the scanned directory
    /// holds such an entry.
    pub avatar_file: Option<String>,
}

/// Order on (identifier, filename) pairs: by identifier, ties broken by
/// the original filename.
pub open spec fn entry_leq(a: (Seq<char>, Seq<char>), b: (Seq<char>, Seq<char>)) -> bool {
    lex_lt(a.0, b.0) || (a.0 == b.0 && lex_leq(a.1, b.1))
}

pub proof fn lemma_entry_leq_total(a: (Seq<char>, Seq<char>), b: (Seq<char>, Seq<char>))
    ensures
        entry_leq(a, b) || entry_leq(b, a),
{
    lemma_lex_trichotomy(a.0, b.0);
    if a.0 == b.0 {
        lemma_lex_trichotomy(a.1, b.1);
    }
}

pub proof fn lemma_entry_leq_trans(
    a: (Seq<char>, Seq<char>),
    b: (Seq<char>, Seq<char>),
    c: (Seq<char>, Seq<char>),
)
    requires
        entry_leq(a, b),
        entry_leq(b, c),
    ensures
        entry_leq(a, c),
{
    if lex_lt(a.0, b.0) {
        if lex_lt(b.0, c.0) {
            lemma_lex_lt_trans(a.0, b.0, c.0);
        }
    } else {
        if lex_lt(b.0, c.0) {
        } else {
            lemma_lex_leq_trans(a.1, b.1, c.1);
        }
    }
}

pub proof fn lemma_entry_leq_antisym(a: (Seq<char>, Seq<char>), b: (Seq<char>, Seq<char>))
    requires
        entry_leq(a, b),
        entry_leq(b, a),
    ensures
        a == b,
{
    if lex_lt(a.0, b.0) {
        crate::text::lemma_lex_lt_asym(a.0, b.0);
    } else {
        crate::text::lemma_lex_leq_antisym(a.1, b.1);
    }
}

/// The (identifier, filename) pairs of the convention-matching names, in
/// listing order.
pub open spec fn matching_entries(l: Seq<Seq<char>>) -> Seq<(Seq<char>, Seq<char>)>
    decreases l.len(),
{
    if l.len() == 0 {
        Seq::empty()
    } else if is_cookie_filename(l.last()) {
        matching_entries(l.drop_last()) + seq![(cookie_profile_id(l.last()), l.last())]
    } else {
        matching_entries(l.drop_last())
    }
}

pub proof fn lemma_matching_entries_wf(l: Seq<Seq<char>>)
    ensures
        forall|j: int|
            0 <= j < matching_entries(l).len() ==> {
                &&& (#[trigger] matching_entries(l)[j]).0 == cookie_profile_id(
                    matching_entries(l)[j].1,
                )
                &&& is_cookie_filename(matching_entries(l)[j].1)
            },
    decreases l.len(),
{
    if l.len() == 0 {
    } else {
        lemma_matching_entries_wf(l.drop_last());
        let rec = matching_entries(l.drop_last());
        assert forall|j: int| 0 <= j < matching_entries(l).len() implies {
            &&& (#[trigger] matching_entries(l)[j]).0 == cookie_profile_id(
                matching_entries(l)[j].1,
            )
            &&& is_cookie_filename(matching_entries(l)[j].1)
        } by {
            if j < rec.len() {
                assert(matching_entries(l)[j] == rec[j]);
            } else {
                assert(matching_entries(l)[j] == (cookie_profile_id(l.last()), l.last()));
            }
        }
    }
}

/// Non-strictly sorted under `entry_leq`.
pub open spec fn entries_sorted(s: Seq<(Seq<char>, Seq<char>)>) -> bool {
    forall|i: int, j: int| 0 <= i < j < s.len() ==> entry_leq(#[trigger] s[i], #[trigger] s[j])
}

/// The character sequences of a listing of filenames.
pub open spec fn listing_views(l: Seq<String>) -> Seq<Seq<char>> {
    Seq::new(l.len(), |i: int| l[i]@)
}

/// The (identifier, filename) pairs of a profile list.
pub open spec fn profile_entries(s: Seq<Profile>) -> Seq<(Seq<char>, Seq<char>)> {
    Seq::new(s.len(), |i: int| (s[i].name@, s[i].cookie_file@))
}

/// Everything `scan` promises of its result, for a listing `l`: the
/// profiles carry exactly the matching filenames with their identifiers,
/// sorted ascending by identifier (ties by filename), and each profile's
/// display metadata is a function of its identifier and position.
pub open spec fn scan_post(l: Seq<Seq<char>>, r: Seq<Profile>) -> bool {
    &&& entries_sorted(profile_entries(r))
    &&& profile_entries(r).to_multiset() == matching_entries(l).to_multiset()
    &&& forall|i: int|
        0 <= i < r.len() ==> (#[trigger] r[i]).name@ == cookie_profile_id(r[i].cookie_file@)
    &&& forall|i: int|
        0 <= i < r.len() ==> (#[trigger] r[i]).display_name@ == spec_format(r[i].name@)
    &&& forall|i: int| 0 <= i < r.len() ==> (#[trigger] r[i]).emoji@ == spec_emoji(i as nat)
    &&& forall|i: int|
        0 <= i < r.len() ==> match (#[trigger] r[i]).avatar_file {
            Option::Some(a) => a@ == avatar_filename(r[i].name@) && l.contains(a@),
            Option::None => !l.contains(avatar_filename(r[i].name@)),
        }
}

pub proof fn lemma_matching_entries_membership(l: Seq<Seq<char>>, name: Seq<char>)
    ensures
        matching_entries(l).contains((cookie_profile_id(name), name)) <==> (l.contains(name)
            && is_cookie_filename(name)),
    decreases l.len(),
{
    let pair = (cookie_profile_id(name), name);
    if l.len() == 0 {
        assert(!l.contains(name));
        assert(!matching_entries(l).contains(pair));
    } else {
        lemma_matching_entries_membership(l.drop_last(), name);
        let rec = matching_entries(l.drop_last());
        let m = matching_entries(l);
        assert(l.contains(name) <==> (l.drop_last().contains(name) || l.last() == name)) by {
            if l.contains(name) {
                let k = choose|k: int| 0 <= k < l.len() && l[k] == name;
                if k < l.len() - 1 {
                    assert(l.drop_last()[k] == name);
                }
            }
            if l.drop_last().contains(name) {
                let k = choose|k: int|
                    0 <= k < l.drop_last().len() && l.drop_last()[k] == name;
                assert(l[k] == name);
            }
            if l.last() == name {
                assert(l[l.len() - 1] == name);
            }
        }
        assert(m.contains(pair) <==> (rec.contains(pair) || (is_cookie_filename(l.last())
            && pair == (cookie_profile_id(l.last()), l.last())))) by {
            if m.contains(pair) {
                let k = choose|k: int| 0 <= k < m.len() && m[k] == pair;
                if k < rec.len() {
                    assert(rec[k] == pair);
                }
            }
            if rec.contains(pair) {
                let k = choose|k: int| 0 <= k < rec.len() && rec[k] == pair;
                assert(m[k] == pair);
            }
            if is_cookie_filename(l.last()) && pair == (cookie_profile_id(l.last()), l.last()) {
                assert(m[rec.len() as int] == pair);
            }
        }
    }
}

/// Law: discovery is exact. Under the scan contract, a profile holding
/// cookie file `name` exists exactly when the listing holds `name` and
/// `name` follows the cookie-file naming convention.
pub proof fn lemma_scan_exactness(l: Seq<Seq<char>>, r: Seq<Profile>, name: Seq<char>)
    requires
        scan_post(l, r),
    ensures
        (exists|i: int| 0 <= i < r.len() && (#[trigger] r[i]).cookie_file@ == name) <==> (
        l.contains(name) && is_cookie_filename(name)),
{
    lemma_matching_entries_membership(l, name);
    lemma_matching_entries_wf(l);
    let pair = (cookie_profile_id(name), name);
    if exists|i: int| 0 <= i < r.len() && (#[trigger] r[i]).cookie_file@ == name {
        let i = choose|i: int| 0 <= i < r.len() && (#[trigger] r[i]).cookie_file@ == name;
        assert(profile_entries(r)[i] == (r[i].name@, name));
        assert(r[i].name@ == cookie_profile_id(name));
        assert(profile_entries(r).contains(pair));
        assert(profile_entries(r).to_multiset().count(pair) > 0);
        assert(matching_entries(l).to_multiset().count(pair) > 0);
        assert(matching_entries(l).contains(pair));
    }
    if l.contains(name) && is_cookie_filename(name) {
        assert(matching_entries(l).contains(pair));
        assert(matching_entries(l).to_multiset().count(pair) > 0);
        assert(profile_entries(r).to_multiset().count(pair) > 0);
        assert(profile_entries(r).contains(pair));
        let k = choose|k: int|
            0 <= k < profile_entries(r).len() && profile_entries(r)[k] == pair;
        assert(r[k].cookie_file@ == name);
    }
}

/// Law: a sorted sequence of entries is determined by what it holds: two
/// sorted sequences with the same entries are equal.
pub proof fn lemma_sorted_entries_unique(
    a: Seq<(Seq<char>, Seq<char>)>,
    b: Seq<(Seq<char>, Seq<char>)>,
)
    requires
        entries_sorted(a),
        entries_sorted(b),
        a.to_multiset() == b.to_multiset(),
    ensures
        a == b,
    decreases a.len(),
{
    if a.len() == 0 {
        vstd::seq_lib::to_multiset_len(a);
        vstd::seq_lib::to_multiset_len(b);
        assert(b.len() == 0);
        assert(a =~= b);
    } else {
        vstd::seq_lib::to_multiset_len(a);
        vstd::seq_lib::to_multiset_len(b);
        assert(b.len() == a.len());
        assert(a.contains(a[0]));
        assert(b.to_multiset().count(a[0]) > 0);
        assert(b.contains(a[0]));
        let i = choose|i: int| 0 <= i < b.len() && b[i] == a[0];
        assert(entry_leq(b[0], a[0])) by {
            if i > 0 {
                assert(entry_leq(b[0], b[i]));
            } else {
                lemma_entry_leq_total(b[0], a[0]);
                lemma_entry_leq_antisym(b[0], b[0]);
            }
        }
        assert(b.contains(b[0]));
        assert(a.to_multiset().count(b[0]) > 0);
        assert(a.contains(b[0]));
        let j = choose|j: int| 0 <= j < a.len() && a[j] == b[0];
        assert(entry_leq(a[0], b[0])) by {
            if j > 0 {
                assert(entry_leq(a[0], a[j]));
            } else {
                lemma_entry_leq_total(a[0], b[0]);
                lemma_entry_leq_antisym(a[0], a[0]);
            }
        }
        lemma_entry_leq_antisym(a[0], b[0]);
        let at = a.drop_first();
        let bt = b.drop_first();
        assert(at =~= a.remove(0));
        assert(bt =~= b.remove(0));
        assert(a.remove(0).to_multiset() == a.to_multiset().remove(a[0]));
        assert(b.remove(0).to_multiset() == b.to_multiset().remove(b[0]));
        assert(at.to_multiset() == bt.to_multiset());
        assert(entries_sorted(at)) by {
            assert forall|p: int, q: int| 0 <= p < q < at.len() implies entry_leq(
                #[trigger] at[p],
                #[trigger] at[q],
            ) by {
                assert(at[p] == a[p + 1] && at[q] == a[q + 1]);
            }
        }
        assert(entries_sorted(bt)) by {
            assert forall|p: int, q: int| 0 <= p < q < bt.len() implies entry_leq(
                #[trigger] bt[p],
                #[trigger] bt[q],
            ) by {
                assert(bt[p] == b[p + 1] && bt[q] == b[q + 1]);
            }
        }
        lemma_sorted_entries_unique(at, bt);
        assert forall|k: int| 0 <= k < a.len() implies a[k] == b[k] by {
            if k > 0 {
                assert(a[k] == at[k - 1]);
                assert(b[k] == bt[k - 1]);
            }
        }
        assert(a =~= b);
    }
}

/// Law: discovery is deterministic. Any two profile lists that satisfy
/// the scan contract for the same listing agree in every observable
/// field, position by position: the identifiers, filenames, display
/// names, icons, and avatar associations all coincide.
pub proof fn lemma_scan_deterministic(l: Seq<Seq<char>>, a: Seq<Profile>, b: Seq<Profile>)
    requires
        scan_post(l, a),
        scan_post(l, b),
    ensures
        a.len() == b.len(),
        forall|i: int|
            0 <= i < a.len() ==> {
                &&& (#[trigger] a[i]).name@ == b[i].name@
                &&& a[i].cookie_file@ == b[i].cookie_file@
                &&& a[i].display_name@ == b[i].display_name@
                &&& a[i].emoji@ == b[i].emoji@
                &&& match (a[i].avatar_file, b[i].avatar_file) {
                    (Option::Some(x), Option::Some(y)) => x@ == y@,
                    (Option::None, Option::None) => true,
                    _ => false,
                }
            },
{
    lemma_sorted_entries_unique(profile_entries(a), profile_entries(b));
    assert(profile_entries(a).len() == profile_entries(b).len());
    assert forall|i: int| 0 <= i < a.len() implies {
        &&& (#[trigger] a[i]).name@ == b[i].name@
        &&& a[i].cookie_file@ == b[i].cookie_file@
        &&& a[i].display_name@ == b[i].display_name@
        &&& a[i].emoji@ == b[i].emoji@
        &&& match (a[i].avatar_file, b[i].avatar_file) {
            (Option::Some(x), Option::Some(y)) => x@ == y@,
            (Option::None, Option::None) => true,
            _ => false,
        }
    } by {
        assert(profile_entries(a)[i] == (a[i].name@, a[i].cookie_file@));
        assert(profile_entries(b)[i] == (b[i].name@, b[i].cookie_file@));
        assert(a[i].name@ == b[i].name@);
        match (a[i].avatar_file, b[i].avatar_file) {
            (Option::Some(_), Option::None) => {
                assert(l.contains(avatar_filename(a[i].name@)));
                assert(!l.contains(avatar_filename(b[i].name@)));
                assert(false);
            },
            (Option::None, Option::Some(_)) => {
                assert(l.contains(avatar_filename(b[i].name@)));
                assert(!l.contains(avatar_filename(a[i].name@)));
                assert(false);
            },
            _ => {},
        }
    }
}

struct RawEntry {
    id: Vec<char>,
    file: Vec<char>,
}

spec fn entry_views(s: Seq<RawEntry>) -> Seq<(Seq<char>, Seq<char>)> {
    Seq::new(s.len(), |i: int| (s[i].id@, s[i].file@))
}

fn entry_leq_exec(a: &RawEntry, b: &RawEntry) -> (r: bool)
    ensures
        r == entry_leq((a.id@, a.file@), (b.id@, b.file@)),
{
    if chars_lt(&a.id, &b.id) {
        true
    } else if chars_eq(&a.id, &b.id) {
        if chars_lt(&a.file, &b.file) {
            true
        } else {
            chars_eq(&a.file, &b.file)
        }
    } else {
        false
    }
}

proof fn lemma_sorted_insert(s: Seq<(Seq<char>, Seq<char>)>, k: int, e: (Seq<char>, Seq<char>))
    requires
        entries_sorted(s),
        0 <= k <= s.len(),
        forall|j: int| 0 <= j < k ==> entry_leq(#[trigger] s[j], e),
        forall|j: int| k <= j < s.len() ==> entry_leq(e, #[trigger] s[j]),
    ensures
        entries_sorted(s.insert(k, e)),
{
    let t = s.insert(k, e);
    assert forall|i: int, j: int| 0 <= i < j < t.len() implies entry_leq(
        #[trigger] t[i],
        #[trigger] t[j],
    ) by {
        if i < k && j < k {
            assert(t[i] == s[i] && t[j] == s[j]);
        } else if i < k && j == k {
            assert(t[i] == s[i] && t[j] == e);
        } else if i < k && j > k {
            assert(t[i] == s[i] && t[j] == s[j - 1]);
        } else if i == k && j > k {
            assert(t[i] == e && t[j] == s[j - 1]);
        } else if i > k && j > k {
            assert(t[i] == s[i - 1] && t[j] == s[j - 1]);
        }
    }
}

/// The position at which `e` is inserted to keep the output sorted: the
/// first position whose entry is not below `e`.
fn insert_position(out: &Vec<RawEntry>, e: &RawEntry) -> (k: usize)
    ensures
        k <= out@.len(),
        forall|j: int| 0 <= j < k ==> !entry_leq((e.id@, e.file@), entry_views(out@)[j]),
        k < out@.len() ==> entry_leq((e.id@, e.file@), entry_views(out@)[k as int]),
{
    let mut k: usize = 0;
    while k < out.len()
        invariant
            k <= out@.len(),
            forall|j: int| 0 <= j < k ==> !entry_leq((e.id@, e.file@), entry_views(out@)[j]),
        decreases out@.len() - k,
    {
        if entry_leq_exec(e, &out[k]) {
            proof {
                assert(entry_views(out@)[k as int] == (out@[k as int].id@, out@[
                    k as int
                ].file@));
            }
            return k;
        }
        proof {
            assert(entry_views(out@)[k as int] == (out@[k as int].id@, out@[k as int].file@));
        }
        k += 1;
    }
    k
}

/// Sort the collected entries ascending under `entry_leq`, keeping
/// exactly the same entries.
fn sort_entries(input: Vec<RawEntry>) -> (r: Vec<RawEntry>)
    ensures
        entries_sorted(entry_views(r@)),
        entry_views(r@).to_multiset() == entry_views(input@).to_multiset(),
{
    let ghost total = entry_views(input@).to_multiset();
    let mut src = input;
    let mut out: Vec<RawEntry> = Vec::new();
    proof {
        assert(entry_views(out@) =~= Seq::<(Seq<char>, Seq<char>)>::empty());
        assert(entry_views(out@).to_multiset().add(entry_views(src@).to_multiset()) =~= total);
    }
    while src.len() > 0
        invariant
            entries_sorted(entry_views(out@)),
            entry_views(out@).to_multiset().add(entry_views(src@).to_multiset()) == total,
        decreases src@.len(),
    {
        let ghost old_src = src@;
        let e = src.pop().unwrap();
        let ghost ev = (e.id@, e.file@);
        proof {
            assert(entry_views(old_src) =~= entry_views(src@).push(ev));
            vstd::seq_lib::to_multiset_build(entry_views(src@), ev);
            assert(entry_views(old_src).to_multiset() == entry_views(src@).to_multiset().insert(
                ev,
            ));
        }
        let k = insert_position(&out, &e);
        let ghost old_out = out@;
        proof {
            assert forall|j: int| 0 <= j < k implies entry_leq(
                #[trigger] entry_views(old_out)[j],
                ev,
            ) by {
                lemma_entry_leq_total(ev, entry_views(old_out)[j]);
            }
            assert forall|j: int| k <= j < old_out.len() implies entry_leq(
                ev,
                #[trigger] entry_views(old_out)[j],
            ) by {
                if j > k {
                    assert(entry_leq(entry_views(old_out)[k as int], entry_views(old_out)[j]));
                    lemma_entry_leq_trans(
                        ev,
                        entry_views(old_out)[k as int],
                        entry_views(old_out)[j],
                    );
                }
            }
            lemma_sorted_insert(entry_views(old_out), k as int, ev);
        }
        out.insert(k, e);
        proof {
            assert(entry_views(out@) =~= entry_views(old_out).insert(k as int, ev));
            vstd::seq_lib::to_multiset_insert(entry_views(old_out), k as int, ev);
            assert(entry_views(out@).to_multiset() == entry_views(old_out).to_multiset().insert(
                ev,
            ));
            assert(entry_views(out@).to_multiset().add(entry_views(src@).to_multiset())
                =~= entry_views(old_out).to_multiset().add(
                entry_views(src@).to_multiset().insert(ev),
            ));
        }
    }
    proof {
        assert(entry_views(src@) =~= Seq::<(Seq<char>, Seq<char>)>::empty());
        vstd::seq_lib::to_multiset_len(entry_views(src@));
        vstd::multiset::lemma_multiset_empty_len(entry_views(src@).to_multiset());
        assert(entry_views(out@).to_multiset() =~= total);
    }
    out
}

/// Does the listing hold a filename with exactly these characters?
fn listing_contains(listing: &Vec<String>, target: &Vec<char>) -> (r: bool)
    ensures
        r == listing_views(listing@).contains(target@),
{
    let mut i: usize = 0;
    while i < listing.len()
        invariant
            i <= listing@.len(),
            forall|k: int| 0 <= k < i ==> listing_views(listing@)[k] != target@,
        decreases listing@.len() - i,
    {
        let s = &listing[i];
        let cs = str_to_chars(s.as_str());
        if chars_eq(&cs, target) {
            proof {
                assert(listing_views(listing@)[i as int] == target@);
            }
            return true;
        }
        i += 1;
    }
    proof {
        if listing_views(listing@).contains(target@) {
            let k = choose|k: int|
                0 <= k < listing_views(listing@).len() && listing_views(listing@)[k] == target@;
            assert(false);
        }
    }
    false
}

proof fn lemma_entries_wf_transfer(
    a: Seq<(Seq<char>, Seq<char>)>,
    b: Seq<(Seq<char>, Seq<char>)>,
)
    requires
        a.to_multiset() == b.to_multiset(),
        forall|j: int| 0 <= j < b.len() ==> (#[trigger] b[j]).0 == cookie_profile_id(b[j].1),
    ensures
        forall|i: int| 0 <= i < a.len() ==> (#[trigger] a[i]).0 == cookie_profile_id(a[i].1),
{
    broadcast use group_to_multiset_ensures;

    assert forall|i: int| 0 <= i < a.len() implies (#[trigger] a[i]).0 == cookie_profile_id(
        a[i].1,
    ) by {
        assert(a.contains(a[i]));
        assert(a.to_multiset().count(a[i]) > 0);
        assert(b.to_multiset().count(a[i]) > 0);
        assert(b.contains(a[i]));
        let j = choose|j: int| 0 <= j < b.len() && b[j] == a[i];
    }
}

/// Scan a directory listing: keep exactly the filenames that follow the
/// cookie-file naming convention, sort them ascending by derived
/// identifier (ties by filename), and build the profile records with
/// their display names, cyclic icons, and avatar association.
pub fn scan(listing: &Vec<String>) -> (r: Vec<Profile>)
    ensures
        scan_post(listing_views(listing@), r@),
{
    let ghost l = listing_views(listing@);
    let mut collected: Vec<RawEntry> = Vec::new();
    let mut idx: usize = 0;
    proof {
        assert(entry_views(collected@) =~= matching_entries(l.take(0)));
    }
    while idx < listing.len()
        invariant
            idx <= listing@.len(),
            l == listing_views(listing@),
            entry_views(collected@) == matching_entries(l.take(idx as int)),
        decreases listing@.len() - idx,
    {
        let s = &listing[idx];
        let name_chars = str_to_chars(s.as_str());
        proof {
            assert(l.take(idx as int + 1).drop_last() =~= l.take(idx as int));
            assert(l.take(idx as int + 1).last() == l[idx as int]);
            assert(name_chars@ == l[idx as int]);
        }
        if matches_convention(&name_chars) {
            let id = extract_profile_id(&name_chars);
            let ghost before = collected@;
            collected.push(RawEntry { id, file: name_chars });
            proof {
                assert(entry_views(collected@) =~= entry_views(before) + seq![
                    (cookie_profile_id(l[idx as int]), l[idx as int]),
                ]);
            }
        }
        idx += 1;
    }
    proof {
        assert(l.take(l.len() as int) =~= l);
    }
    let sorted = sort_entries(collected);
    let ghost sorted_pairs = entry_views(sorted@);
    proof {
        lemma_matching_entries_wf(l);
        lemma_entries_wf_transfer(sorted_pairs, matching_entries(l));
    }
    let n = sorted.len();
    let mut profiles: Vec<Profile> = Vec::new();
    let mut i: usize = 0;
    while i < n
        invariant
            i <= n == sorted@.len(),
            l == listing_views(listing@),
            sorted_pairs == entry_views(sorted@),
            profiles@.len() == i,
            forall|j: int|
                0 <= j < i ==> (#[trigger] profiles@[j].name@, profiles@[j].cookie_file@)
                    == sorted_pairs[j],
            forall|j: int|
                0 <= j < i ==> (#[trigger] profiles@[j]).display_name@ == spec_format(
                    profiles@[j].name@,
                ),
            forall|j: int|
                0 <= j < i ==> (#[trigger] profiles@[j]).emoji@ == spec_emoji(j as nat),
            forall|j: int|
                0 <= j < i ==> match (#[trigger] profiles@[j]).avatar_file {
                    Option::Some(a) => a@ == avatar_filename(profiles@[j].name@) && l.contains(
                        a@,
                    ),
                    Option::None => !l.contains(avatar_filename(profiles@[j].name@)),
                },
        decreases n - i,
    {
        let e = &sorted[i];
        let name = string_from_chars(&e.id);
        let file = string_from_chars(&e.file);
        let disp_chars = format_id_chars(&e.id);
        let display_name = string_from_chars(&disp_chars);
        let emoji = String::from_str(profile_emoji(i));
        let av = avatar_file_for(&e.id);
        let avatar_file: Option<String> = if listing_contains(listing, &av) {
            Option::Some(string_from_chars(&av))
        } else {
            Option::None
        };
        profiles.push(
            Profile { name, cookie_file: file, display_name, emoji, avatar_file },
        );
        i += 1;
    }
    proof {
        assert(profile_entries(profiles@) =~= sorted_pairs);
        assert(profile_entries(profiles@).to_multiset() == matching_entries(l).to_multiset());
        assert forall|i2: int| 0 <= i2 < profiles@.len() implies (#[trigger] profiles@[i2]).name@
            == cookie_profile_id(profiles@[i2].cookie_file@) by {
            assert(sorted_pairs[i2].0 == cookie_profile_id(sorted_pairs[i2].1));
            assert(profiles@[i2].name@ == sorted_pairs[i2].0);
            assert(profiles@[i2].cookie_file@ == sorted_pairs[i2].1);
        }
    }
    profiles
}

} // verus!
