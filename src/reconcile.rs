//! Reconciliation of the device's listings with the classification store.
use vstd::prelude::*;
use crate::text::{lex_lt, lines_of, lower_of, lowercase, less_than, split_lines, str_equal};
use crate::types::{
    find_entry, rows_view, Package, PackageHashMap, PackageRow, PackageState, Removal, RowView,
    UadList, DEFAULT_DESCRIPTION,
};

verus! {

/// The character sequences of a sequence of strings.
pub open spec fn names_of(v: Seq<String>) -> Seq<Seq<char>> {
    v.map_values(|s: String| s@)
}

/// The state of `name`: enabled takes precedence over disabled.
pub open spec fn state_for(enabled: Seq<Seq<char>>, disabled: Seq<Seq<char>>, name: Seq<char>) -> PackageState {
    if enabled.contains(name) {
        PackageState::Enabled
    } else if disabled.contains(name) {
        PackageState::Disabled
    } else {
        PackageState::Uninstalled
    }
}

/// The record of `name`, before any user choice.
pub open spec fn record_for(
    store: Seq<Package>,
    enabled: Seq<Seq<char>>,
    disabled: Seq<Seq<char>>,
    name: Seq<char>,
) -> RowView {
    let entry = find_entry(store, name);
    RowView {
        name,
        state: state_for(enabled, disabled, name),
        description: match entry {
            Some(p) => if p.description@.len() > 0 { p.description@ } else { DEFAULT_DESCRIPTION@ },
            None => DEFAULT_DESCRIPTION@,
        },
        uad_list: match entry {
            Some(p) => p.list,
            None => UadList::Unlisted,
        },
        removal: match entry {
            Some(p) => p.removal,
            None => Removal::Unlisted,
        },
        selected: false,
        marked: false,
    }
}

/// The sort key of a record: its name in lowercase.
pub open spec fn sort_key(r: RowView) -> Seq<char> {
    lower_of(r.name)
}

/// Where `x` goes in `s`: before the first record whose key is greater than its own.
pub open spec fn insert_pos(s: Seq<RowView>, x: RowView) -> int
    decreases s.len(),
{
    if s.len() == 0 {
        0
    } else if lex_lt(sort_key(x), sort_key(s[0])) {
        0
    } else {
        1 + insert_pos(s.drop_first(), x)
    }
}

/// `s` stably sorted by `sort_key`: each record is placed after those that
/// came before it with an equal key.
pub open spec fn sorted_by_name(s: Seq<RowView>) -> Seq<RowView>
    decreases s.len(),
{
    if s.len() == 0 {
        s
    } else {
        let t = sorted_by_name(s.drop_last());
        t.insert(insert_pos(t, s.last()), s.last())
    }
}

/// The records of a listing, in listing order.
pub open spec fn records_of(
    store: Seq<Package>,
    listing: Seq<Seq<char>>,
    enabled: Seq<Seq<char>>,
    disabled: Seq<Seq<char>>,
) -> Seq<RowView> {
    listing.map_values(|n: Seq<char>| record_for(store, enabled, disabled, n))
}

/// The reconciled records of a listing.
pub open spec fn reconciled(
    store: Seq<Package>,
    listing: Seq<Seq<char>>,
    enabled: Seq<Seq<char>>,
    disabled: Seq<Seq<char>>,
) -> Seq<RowView> {
    sorted_by_name(records_of(store, listing, enabled, disabled))
}

proof fn lemma_insert_pos_bounds(s: Seq<RowView>, x: RowView)
    ensures
        0 <= insert_pos(s, x) <= s.len(),
        forall|j: int| 0 <= j < insert_pos(s, x) ==> !lex_lt(sort_key(x), #[trigger] sort_key(s[j])),
        insert_pos(s, x) < s.len() ==> lex_lt(sort_key(x), sort_key(s[insert_pos(s, x)])),
    decreases s.len(),
{
    if s.len() > 0 && !lex_lt(sort_key(x), sort_key(s[0])) {
        lemma_insert_pos_bounds(s.drop_first(), x);
        assert forall|j: int| 0 <= j < insert_pos(s, x) implies !lex_lt(sort_key(x), #[trigger] sort_key(s[j])) by {
            if j > 0 {
                assert(s[j] == s.drop_first()[j - 1]);
            }
        }
    }
}

fn contains_name(v: &Vec<String>, n: &str) -> (r: bool)
    ensures
        r == names_of(v@).contains(n@),
{
    let mut i: usize = 0;
    while i < v.len()
        invariant
            i <= v@.len(),
            forall|k: int| 0 <= k < i ==> v@[k]@ != n@,
        decreases v@.len() - i,
    {
        if str_equal(v[i].as_str(), n) {
            assert(names_of(v@)[i as int] == n@);
            return true;
        }
        i = i + 1;
    }
    assert forall|k: int| 0 <= k < names_of(v@).len() implies names_of(v@)[k] != n@ by {
        assert(names_of(v@)[k] == v@[k]@);
    }
    false
}

fn make_record(
    uad_lists: &PackageHashMap,
    p_name: &str,
    enabled: &Vec<String>,
    disabled: &Vec<String>,
) -> (r: PackageRow)
    ensures
        r@ == record_for(uad_lists.packages@, names_of(enabled@), names_of(disabled@), p_name@),
{
    let mut state = PackageState::Uninstalled;
    let mut description: &str = DEFAULT_DESCRIPTION;
    let mut uad_list = UadList::Unlisted;
    let mut removal = Removal::Unlisted;
    if let Some(package) = uad_lists.get(p_name) {
        if package.description.unicode_len() != 0 {
            description = package.description.as_str();
        }
        uad_list = package.list;
        removal = package.removal;
    }
    if contains_name(enabled, p_name) {
        state = PackageState::Enabled;
    } else if contains_name(disabled, p_name) {
        state = PackageState::Disabled;
    }
    PackageRow::new(p_name, state, description, uad_list, removal, false, false)
}

fn insert_by_name(out: &mut Vec<PackageRow>, row: PackageRow)
    ensures
        rows_view(final(out)@) == rows_view(old(out)@).insert(insert_pos(rows_view(old(out)@), row@), row@),
{
    let ghost s = rows_view(out@);
    let key = lowercase(row.name.as_str());
    let mut j: usize = 0;
    assert(s.skip(0) =~= s);
    while j < out.len() && !less_than(key.as_str(), lowercase(out[j].name.as_str()).as_str())
        invariant
            s == rows_view(out@),
            key@ == sort_key(row@),
            j <= out@.len(),
            insert_pos(s, row@) == j + insert_pos(s.skip(j as int), row@),
        decreases out@.len() - j,
    {
        assert(s.skip(j as int)[0] == out@[j as int]@);
        assert(s.skip(j as int).drop_first() =~= s.skip(j + 1));
        j = j + 1;
    }
    proof {
        if j < out@.len() {
            assert(s.skip(j as int)[0] == out@[j as int]@);
        }
    }
    out.insert(j, row);
    assert(rows_view(out@) =~= s.insert(j as int, row@));
}

/// The canonical records of the packages named by `listing`, one per entry,
/// sorted by lowercase name, stably.
///
/// A record's state is `Enabled` if its name is in `enabled`, else `Disabled`
/// if it is in `disabled`, else `Uninstalled`; its tags and non-empty
/// description come from the store's entry for the name, where there is one,
/// and are the defaults otherwise. `enabled` and `disabled` stand for sets of
/// names: only membership counts, not order or repeats.
pub fn reconcile_listing(
    uad_lists: &PackageHashMap,
    listing: &Vec<String>,
    enabled: &Vec<String>,
    disabled: &Vec<String>,
) -> (r: Vec<PackageRow>)
    ensures
        rows_view(r@) == reconciled(
            uad_lists.packages@,
            names_of(listing@),
            names_of(enabled@),
            names_of(disabled@),
        ),
{
    let ghost names = names_of(listing@);
    let ghost en = names_of(enabled@);
    let ghost dis = names_of(disabled@);
    let ghost recs = records_of(uad_lists.packages@, names, en, dis);
    let mut user_package: Vec<PackageRow> = Vec::new();
    let mut k: usize = 0;
    assert(recs.subrange(0, 0) =~= Seq::<RowView>::empty());
    while k < listing.len()
        invariant
            names == names_of(listing@),
            recs == records_of(uad_lists.packages@, names, en, dis),
            en == names_of(enabled@),
            dis == names_of(disabled@),
            k <= listing@.len(),
            rows_view(user_package@) == sorted_by_name(recs.subrange(0, k as int)),
        decreases listing@.len() - k,
    {
        let row = make_record(uad_lists, listing[k].as_str(), enabled, disabled);
        assert(row@ == recs[k as int]);
        insert_by_name(&mut user_package, row);
        assert(recs.subrange(0, k + 1).drop_last() =~= recs.subrange(0, k as int));
        k = k + 1;
    }
    assert(recs.subrange(0, k as int) =~= recs);
    user_package
}

/// The canonical records of the packages of a device: `reconcile_listing` on
/// the lines of `all_system_packages`, one name per line. Lines are taken as
/// they come: an empty line in the middle of the listing gives a record with
/// an empty name, which is the listing provider's to avoid.
pub fn fetch_packages(
    uad_lists: &PackageHashMap,
    all_system_packages: &str,
    enabled_system_packages: &Vec<String>,
    disabled_system_packages: &Vec<String>,
) -> (r: Vec<PackageRow>)
    ensures
        rows_view(r@) == reconciled(
            uad_lists.packages@,
            lines_of(all_system_packages@),
            names_of(enabled_system_packages@),
            names_of(disabled_system_packages@),
        ),
{
    let lines = split_lines(all_system_packages);
    assert(names_of(lines@) == lines@.map_values(|l: String| l@));
    reconcile_listing(uad_lists, &lines, enabled_system_packages, disabled_system_packages)
}

proof fn lemma_sorted_multiset(s: Seq<RowView>)
    ensures
        sorted_by_name(s).to_multiset() == s.to_multiset(),
        sorted_by_name(s).len() == s.len(),
    decreases s.len(),
{
    broadcast use vstd::seq_lib::to_multiset_build, vstd::seq_lib::to_multiset_insert;

    if s.len() > 0 {
        let t = sorted_by_name(s.drop_last());
        lemma_sorted_multiset(s.drop_last());
        lemma_insert_pos_bounds(t, s.last());
        assert(s.drop_last().push(s.last()) =~= s);
    }
}

proof fn lemma_sorted_ordered(s: Seq<RowView>)
    ensures
        forall|i: int, j: int|
            0 <= i < j < sorted_by_name(s).len() ==> !lex_lt(
                sort_key(#[trigger] sorted_by_name(s)[j]),
                sort_key(#[trigger] sorted_by_name(s)[i]),
            ),
    decreases s.len(),
{
    if s.len() > 0 {
        let t = sorted_by_name(s.drop_last());
        let x = s.last();
        lemma_sorted_ordered(s.drop_last());
        lemma_sorted_multiset(s.drop_last());
        lemma_insert_pos_bounds(t, x);
        let p = insert_pos(t, x);
        let r = sorted_by_name(s);
        assert(r == t.insert(p, x));
        assert forall|i: int, j: int| 0 <= i < j < r.len() implies !lex_lt(
            sort_key(#[trigger] r[j]),
            sort_key(#[trigger] r[i]),
        ) by {
            if j < p {
                assert(r[i] == t[i] && r[j] == t[j]);
            } else if j == p {
                assert(r[i] == t[i] && r[j] == x);
            } else if i == p {
                assert(r[j] == t[j - 1]);
                if lex_lt(sort_key(t[j - 1]), sort_key(x)) {
                    crate::text::lemma_lex_lt_transitive(sort_key(t[j - 1]), sort_key(x), sort_key(t[p]));
                    if j - 1 == p {
                        crate::text::lemma_lex_lt_irreflexive(sort_key(t[p]));
                    }
                }
            } else if i < p {
                assert(r[i] == t[i] && r[j] == t[j - 1]);
            } else {
                assert(r[i] == t[i - 1] && r[j] == t[j - 1]);
            }
        }
    }
}

/// The records of `s` whose sort key is `k`, in order.
pub open spec fn with_key(s: Seq<RowView>, k: Seq<char>) -> Seq<RowView>
    decreases s.len(),
{
    if s.len() == 0 {
        s
    } else if sort_key(s.last()) == k {
        with_key(s.drop_last(), k).push(s.last())
    } else {
        with_key(s.drop_last(), k)
    }
}

proof fn lemma_with_key_concat(a: Seq<RowView>, b: Seq<RowView>, k: Seq<char>)
    ensures
        with_key(a + b, k) == with_key(a, k) + with_key(b, k),
    decreases b.len(),
{
    if b.len() == 0 {
        assert(a + b =~= a);
        assert(with_key(a, k) + with_key(b, k) =~= with_key(a, k));
    } else {
        lemma_with_key_concat(a, b.drop_last(), k);
        assert((a + b).drop_last() =~= a + b.drop_last());
        assert((a + b).last() == b.last());
        if sort_key(b.last()) == k {
            assert(with_key(a, k) + with_key(b, k) =~= (with_key(a, k) + with_key(b.drop_last(), k)).push(b.last()));
        }
    }
}

proof fn lemma_with_key_none(b: Seq<RowView>, k: Seq<char>)
    requires
        forall|j: int| 0 <= j < b.len() ==> sort_key(#[trigger] b[j]) != k,
    ensures
        with_key(b, k) == Seq::<RowView>::empty(),
    decreases b.len(),
{
    if b.len() > 0 {
        lemma_with_key_none(b.drop_last(), k);
        assert(sort_key(b[b.len() - 1]) != k);
    }
}

proof fn lemma_sorted_stable(s: Seq<RowView>, k: Seq<char>)
    ensures
        with_key(sorted_by_name(s), k) == with_key(s, k),
    decreases s.len(),
{
    if s.len() > 0 {
        let t = sorted_by_name(s.drop_last());
        let x = s.last();
        lemma_sorted_stable(s.drop_last(), k);
        lemma_sorted_ordered(s.drop_last());
        lemma_sorted_multiset(s.drop_last());
        lemma_insert_pos_bounds(t, x);
        let p = insert_pos(t, x);
        let front = t.subrange(0, p);
        let back = t.subrange(p, t.len() as int);
        assert(t.insert(p, x) =~= front.push(x) + back);
        assert(t =~= front + back);
        assert forall|j: int| 0 <= j < back.len() implies sort_key(#[trigger] back[j]) != sort_key(x) by {
            assert(back[j] == t[p + j]);
            if j > 0 {
                assert(!lex_lt(sort_key(t[p + j]), sort_key(t[p])));
                if sort_key(t[p + j]) == sort_key(x) {
                    assert(lex_lt(sort_key(x), sort_key(t[p])));
                }
            } else {
                crate::text::lemma_lex_lt_irreflexive(sort_key(x));
            }
        }
        lemma_with_key_concat(front.push(x), back, k);
        lemma_with_key_concat(front, back, k);
        assert(front.push(x).drop_last() =~= front);
        if sort_key(x) == k {
            lemma_with_key_none(back, k);
            assert(with_key(front.push(x), k) + with_key(back, k) =~= with_key(front.push(x), k));
            assert(with_key(front, k) + with_key(back, k) =~= with_key(front, k));
        }
    }
}

/// Records whose lowercase names are equal keep the order of the listing:
/// for every lowercase name, the records that have it come in the order in
/// which their names stand in the listing.
pub proof fn law_sort_is_stable(
    store: Seq<Package>,
    listing: Seq<Seq<char>>,
    enabled: Seq<Seq<char>>,
    disabled: Seq<Seq<char>>,
    key: Seq<char>,
)
    ensures
        with_key(reconciled(store, listing, enabled, disabled), key)
            == with_key(records_of(store, listing, enabled, disabled), key),
{
    lemma_sorted_stable(records_of(store, listing, enabled, disabled), key);
}

proof fn lemma_rows_are_records(
    store: Seq<Package>,
    listing: Seq<Seq<char>>,
    enabled: Seq<Seq<char>>,
    disabled: Seq<Seq<char>>,
)
    ensures
        reconciled(store, listing, enabled, disabled).len() == listing.len(),
        forall|i: int| 0 <= i < reconciled(store, listing, enabled, disabled).len() ==> {
            let r = #[trigger] reconciled(store, listing, enabled, disabled)[i];
            &&& listing.contains(r.name)
            &&& r == record_for(store, enabled, disabled, r.name)
        },
{
    broadcast use vstd::seq_lib::to_multiset_contains;

    let recs = records_of(store, listing, enabled, disabled);
    let r = reconciled(store, listing, enabled, disabled);
    lemma_sorted_multiset(recs);
    assert forall|i: int| 0 <= i < r.len() implies {
        &&& listing.contains(#[trigger] r[i].name)
        &&& r[i] == record_for(store, enabled, disabled, r[i].name)
    } by {
        assert(r.contains(r[i]));
        assert(r.to_multiset().count(r[i]) > 0);
        assert(recs.contains(r[i]));
        let j = choose|j: int| 0 <= j < recs.len() && recs[j] == r[i];
        assert(recs[j] == record_for(store, enabled, disabled, listing[j]));
    }
}

/// Every name of the listing has a record, every record names a line of the
/// listing, there are as many records as lines, and where the listing holds
/// no name twice no two records share a name.
pub proof fn law_total_coverage(
    store: Seq<Package>,
    listing: Seq<Seq<char>>,
    enabled: Seq<Seq<char>>,
    disabled: Seq<Seq<char>>,
)
    ensures
        reconciled(store, listing, enabled, disabled).len() == listing.len(),
        forall|i: int| 0 <= i < reconciled(store, listing, enabled, disabled).len()
            ==> listing.contains(#[trigger] reconciled(store, listing, enabled, disabled)[i].name),
        forall|n: Seq<char>| #[trigger] listing.contains(n) ==> exists|i: int|
            0 <= i < reconciled(store, listing, enabled, disabled).len()
                && #[trigger] reconciled(store, listing, enabled, disabled)[i].name == n,
        listing.no_duplicates() ==> forall|i: int, j: int|
            0 <= i < reconciled(store, listing, enabled, disabled).len()
                && 0 <= j < reconciled(store, listing, enabled, disabled).len() && i != j
                ==> #[trigger] reconciled(store, listing, enabled, disabled)[i].name
                != #[trigger] reconciled(store, listing, enabled, disabled)[j].name,
{
    broadcast use vstd::seq_lib::to_multiset_contains;

    let recs = records_of(store, listing, enabled, disabled);
    let r = reconciled(store, listing, enabled, disabled);
    lemma_rows_are_records(store, listing, enabled, disabled);
    lemma_sorted_multiset(recs);
    assert forall|n: Seq<char>| #[trigger] listing.contains(n) implies exists|i: int|
        0 <= i < r.len() && #[trigger] r[i].name == n by {
        let j = choose|j: int| 0 <= j < listing.len() && listing[j] == n;
        assert(recs[j] == record_for(store, enabled, disabled, n));
        assert(recs.contains(recs[j]));
        assert(recs.to_multiset().count(recs[j]) > 0);
        assert(r.contains(recs[j]));
    }
    if listing.no_duplicates() {
        assert(recs.no_duplicates()) by {
            assert forall|i: int, j: int| 0 <= i < recs.len() && 0 <= j < recs.len() && i != j
                implies recs[i] != recs[j] by {
                assert(recs[i].name == listing[i]);
                assert(recs[j].name == listing[j]);
            }
        }
        recs.lemma_multiset_has_no_duplicates();
        r.lemma_multiset_has_no_duplicates_conv();
        assert forall|i: int, j: int| 0 <= i < r.len() && 0 <= j < r.len() && i != j
            implies #[trigger] r[i].name != #[trigger] r[j].name by {
            assert(r[i] != r[j]);
        }
    }
}

/// A record whose name is enabled is `Enabled`, even where the name is also
/// disabled; one that is disabled and not enabled is `Disabled`; any other is
/// `Uninstalled`.
pub proof fn law_state_precedence(
    store: Seq<Package>,
    listing: Seq<Seq<char>>,
    enabled: Seq<Seq<char>>,
    disabled: Seq<Seq<char>>,
)
    ensures
        forall|i: int| 0 <= i < reconciled(store, listing, enabled, disabled).len() ==> {
            let r = #[trigger] reconciled(store, listing, enabled, disabled)[i];
            &&& enabled.contains(r.name) ==> r.state == PackageState::Enabled
            &&& !enabled.contains(r.name) && disabled.contains(r.name) ==> r.state == PackageState::Disabled
            &&& !enabled.contains(r.name) && !disabled.contains(r.name) ==> r.state == PackageState::Uninstalled
        },
{
    lemma_rows_are_records(store, listing, enabled, disabled);
}

/// A record whose name the store does not hold has the default description
/// and `Unlisted` tags; one whose entry has an empty description has the
/// default description too.
pub proof fn law_default_description(
    store: Seq<Package>,
    listing: Seq<Seq<char>>,
    enabled: Seq<Seq<char>>,
    disabled: Seq<Seq<char>>,
)
    ensures
        forall|i: int| 0 <= i < reconciled(store, listing, enabled, disabled).len() ==> {
            let r = #[trigger] reconciled(store, listing, enabled, disabled)[i];
            &&& find_entry(store, r.name) is None ==> {
                &&& r.description == DEFAULT_DESCRIPTION@
                &&& r.uad_list == UadList::Unlisted
                &&& r.removal == Removal::Unlisted
            }
            &&& find_entry(store, r.name) is Some && find_entry(store, r.name)->0.description@.len() == 0
                ==> r.description == DEFAULT_DESCRIPTION@
        },
{
    lemma_rows_are_records(store, listing, enabled, disabled);
}

/// The records are in order of their lowercase names: no record's lowercase
/// name comes strictly before that of a record ahead of it.
pub proof fn law_sorted_by_lowercase_name(
    store: Seq<Package>,
    listing: Seq<Seq<char>>,
    enabled: Seq<Seq<char>>,
    disabled: Seq<Seq<char>>,
)
    ensures
        forall|i: int, j: int| 0 <= i < j < reconciled(store, listing, enabled, disabled).len() ==> !lex_lt(
            lower_of(#[trigger] reconciled(store, listing, enabled, disabled)[j].name),
            lower_of(#[trigger] reconciled(store, listing, enabled, disabled)[i].name),
        ),
{
    lemma_sorted_ordered(records_of(store, listing, enabled, disabled));
}

} // verus!
