//! Retention: which files to delete once there are more than the cap allows.

use crate::datetime::{civil_before, is_civil, Civil};
use crate::naming::{file_name, has_plain_year, lemma_names_order_as_time};
use crate::text::{
    ends_with, lemma_newest_first_is_total, lemma_text_le_antisymmetric, lemma_text_le_total,
    lemma_text_le_transitive, newest_first, sorts_no_later, starts_with, text_le,
};
use vstd::prelude::*;
use vstd::relations::*;
use vstd::seq_lib::*;
use vstd::string::*;

verus! {

/// Names with this ending are never counted nor deleted.
pub open spec fn latest_suffix() -> Seq<char> {
    seq!['.', 'l', 'a', 't', 'e', 's', 't']
}

/// Whether a directory entry counts as one of the files kept for `prefix`:
/// its name begins with the prefix, does not end in `.latest`, and is not the
/// pointer, whose name is the prefix itself.
pub open spec fn is_log_file(name: Seq<char>, prefix: Seq<char>) -> bool {
    &&& prefix.is_prefix_of(name)
    &&& !latest_suffix().is_suffix_of(name)
    &&& name != prefix
}

/// [`is_log_file`] for a fixed prefix.
pub open spec fn log_file_of(prefix: Seq<char>) -> spec_fn(Seq<char>) -> bool {
    |name: Seq<char>| is_log_file(name, prefix)
}

/// The entries of a listing that count for `prefix`, in the listing's order.
pub open spec fn log_files(names: Seq<Seq<char>>, prefix: Seq<char>) -> Seq<Seq<char>> {
    names.filter(log_file_of(prefix))
}

/// The files of a listing, newest name first.
pub open spec fn ranked(names: Seq<Seq<char>>, prefix: Seq<char>) -> Seq<Seq<char>> {
    log_files(names, prefix).sort_by(newest_first())
}

/// The files that stay: the first `max_files` of the ranking.
pub open spec fn files_to_keep(names: Seq<Seq<char>>, prefix: Seq<char>, max_files: nat) -> Seq<
    Seq<char>,
> {
    let all = ranked(names, prefix);
    if all.len() > max_files {
        all.take(max_files as int)
    } else {
        all
    }
}

/// The files to delete: what follows the first `max_files` of the ranking.
pub open spec fn files_to_remove(names: Seq<Seq<char>>, prefix: Seq<char>, max_files: nat) -> Seq<
    Seq<char>,
> {
    let all = ranked(names, prefix);
    if all.len() > max_files {
        all.skip(max_files as int)
    } else {
        Seq::empty()
    }
}

/// Whether an entry is left alone by the pruning of `names`.
pub open spec fn spared_by(names: Seq<Seq<char>>, prefix: Seq<char>, max_files: nat) -> spec_fn(
    Seq<char>,
) -> bool {
    |name: Seq<char>| !files_to_remove(names, prefix, max_files).contains(name)
}

/// The listing once the files handed out for deletion are gone.
pub open spec fn after_pruning(names: Seq<Seq<char>>, prefix: Seq<char>, max_files: nat) -> Seq<
    Seq<char>,
> {
    names.filter(spared_by(names, prefix, max_files))
}

/// Whether the entry `name` counts as one of the files kept for `prefix`.
pub fn is_log_file_name(name: &str, prefix: &str) -> (yes: bool)
    ensures
        yes == is_log_file(name@, prefix@),
{
    proof {
        reveal_strlit(".latest");
        assert(".latest"@ =~= latest_suffix());
    }
    if !starts_with(name, prefix) {
        return false;
    }
    if ends_with(name, ".latest") {
        return false;
    }
    let same_length = name.unicode_len() == prefix.unicode_len();
    proof {
        if same_length {
            assert(name@ =~= name@.subrange(0, prefix@.len() as int));
        }
    }
    !same_length
}

proof fn lemma_deep_view_push(before: Vec<String>, after: Vec<String>, last: String)
    requires
        after@ == before@.push(last),
    ensures
        after.deep_view() == before.deep_view().push(last@),
{
    assert(after.deep_view() =~= before.deep_view().push(last@));
}

proof fn lemma_deep_view_insert(before: Vec<String>, after: Vec<String>, at: int, item: String)
    requires
        0 <= at <= before@.len(),
        after@ == before@.insert(at, item),
    ensures
        after.deep_view() == before.deep_view().insert(at, item@),
{
    assert(after.deep_view() =~= before.deep_view().insert(at, item@));
}

/// The entries of `names` that count for `prefix`, in the order of `names`.
pub fn collect_log_files(names: &Vec<String>, prefix: &str) -> (files: Vec<String>)
    ensures
        files.deep_view() == log_files(names.deep_view(), prefix@),
{
    let mut files: Vec<String> = Vec::new();
    let mut i: usize = 0;
    proof {
        reveal(Seq::filter);
        assert(names.deep_view().take(0) =~= Seq::<Seq<char>>::empty());
        assert(files.deep_view() =~= Seq::<Seq<char>>::empty());
    }
    while i < names.len()
        invariant
            i <= names.len(),
            files.deep_view() == log_files(names.deep_view().take(i as int), prefix@),
        decreases names.len() - i,
    {
        let ghost before = files;
        let keep = is_log_file_name(names[i].as_str(), prefix);
        if keep {
            let name = names[i].clone();
            files.push(name);
            proof {
                lemma_deep_view_push(before, files, name);
            }
        }
        proof {
            reveal(Seq::filter);
            let all = names.deep_view();
            assert(all.take(i + 1).drop_last() =~= all.take(i as int));
            assert(all.take(i + 1).last() == names[i as int]@);
        }
        i += 1;
    }
    proof {
        assert(names.deep_view().take(names.len() as int) =~= names.deep_view());
    }
    files
}

/// The same names, newest first.
pub fn sort_newest_first(files: &Vec<String>) -> (sorted: Vec<String>)
    ensures
        sorted.deep_view() == files.deep_view().sort_by(newest_first()),
{
    let mut sorted: Vec<String> = Vec::new();
    let mut i: usize = 0;
    proof {
        assert(files.deep_view().take(0) =~= Seq::<Seq<char>>::empty());
        assert(sorted.deep_view() =~= Seq::<Seq<char>>::empty());
    }
    while i < files.len()
        invariant
            i <= files.len(),
            sorted.len() == i,
            sorted_by(sorted.deep_view(), newest_first()),
            sorted.deep_view().to_multiset() == files.deep_view().take(i as int).to_multiset(),
        decreases files.len() - i,
    {
        let name = files[i].clone();
        let mut j: usize = 0;
        while j < sorted.len() && !sorts_no_later(sorted[j].as_str(), name.as_str())
            invariant
                j <= sorted.len(),
                forall|k: int| 0 <= k < j ==> text_le(name@, #[trigger] sorted.deep_view()[k]),
            decreases sorted.len() - j,
        {
            proof {
                lemma_text_le_total(sorted[j as int]@, name@);
            }
            j += 1;
        }
        let ghost before = sorted;
        sorted.insert(j, name);
        proof {
            lemma_deep_view_insert(before, sorted, j as int, name);
            let old_names = before.deep_view();
            let new_names = sorted.deep_view();
            assert forall|a: int, b: int| 0 <= a < b < new_names.len() implies #[trigger]
                newest_first()(new_names[a], new_names[b]) by {
                if b < j {
                    assert(newest_first()(old_names[a], old_names[b]));
                } else if b == j {
                    assert(text_le(name@, old_names[a]));
                } else if a < j {
                    assert(newest_first()(old_names[a], old_names[b - 1]));
                } else if a == j {
                    assert(text_le(old_names[j as int], name@));
                    if b - 1 > j {
                        assert(newest_first()(old_names[j as int], old_names[b - 1]));
                        lemma_text_le_transitive(old_names[b - 1], old_names[j as int], name@);
                    }
                } else {
                    assert(newest_first()(old_names[a - 1], old_names[b - 1]));
                }
            }
            to_multiset_insert(old_names, j as int, name@);
            let all = files.deep_view();
            assert(all.take(i + 1) =~= all.take(i as int).push(name@));
            all.take(i as int).to_multiset_ensures();
        }
        i += 1;
    }
    proof {
        let all = files.deep_view();
        assert(all.take(files.len() as int) =~= all);
        lemma_newest_first_is_total();
        all.lemma_sort_by_ensures(newest_first());
        lemma_sorted_unique(sorted.deep_view(), all.sort_by(newest_first()), newest_first());
    }
    sorted
}

/// Picks from a directory listing the files to delete so that at most
/// `max_files` remain for `prefix`: all but the `max_files` newest names,
/// newest first.
pub fn log_files_to_remove(names: &Vec<String>, prefix: &str, max_files: usize) -> (doomed: Vec<
    String,
>)
    ensures
        doomed.deep_view() == files_to_remove(names.deep_view(), prefix@, max_files as nat),
{
    let files = collect_log_files(names, prefix);
    let mut sorted = sort_newest_first(&files);
    if sorted.len() > max_files {
        let ghost all = sorted;
        let doomed = sorted.split_off(max_files);
        proof {
            assert(doomed.deep_view() =~= all.deep_view().skip(max_files as int));
        }
        doomed
    } else {
        let doomed: Vec<String> = Vec::new();
        proof {
            assert(doomed.deep_view() =~= Seq::<Seq<char>>::empty());
        }
        doomed
    }
}

/// What pruning does to a listing.
///
/// The files that stay and the files that go are together the files of the
/// listing, each as often as it is listed. No more than `max_files` stay, and
/// all of them where there are no more than that. Every file that stays has
/// a name at least as late as every file that goes.
pub proof fn lemma_pruning_keeps_newest(names: Seq<Seq<char>>, prefix: Seq<char>, max_files: nat)
    ensures
        files_to_keep(names, prefix, max_files) + files_to_remove(names, prefix, max_files)
            == ranked(names, prefix),
        ranked(names, prefix).to_multiset() == log_files(names, prefix).to_multiset(),
        ranked(names, prefix).len() == log_files(names, prefix).len(),
        files_to_keep(names, prefix, max_files).len() == if log_files(names, prefix).len()
            > max_files {
            max_files
        } else {
            log_files(names, prefix).len()
        },
        forall|i: int, j: int|
            0 <= i < files_to_keep(names, prefix, max_files).len() && 0 <= j < files_to_remove(
                names,
                prefix,
                max_files,
            ).len() ==> text_le(
                #[trigger] files_to_remove(names, prefix, max_files)[j],
                #[trigger] files_to_keep(names, prefix, max_files)[i],
            ),
{
    let files = log_files(names, prefix);
    let all = ranked(names, prefix);
    let keep = files_to_keep(names, prefix, max_files);
    let gone = files_to_remove(names, prefix, max_files);
    lemma_newest_first_is_total();
    files.lemma_sort_by_ensures(newest_first());
    files.to_multiset_ensures();
    all.to_multiset_ensures();
    assert(keep + gone =~= all);
    assert forall|i: int, j: int| 0 <= i < keep.len() && 0 <= j < gone.len() implies text_le(
        #[trigger] gone[j],
        #[trigger] keep[i],
    ) by {
        assert(newest_first()(all[i], all[max_files + j]));
    }
}

/// Pruning touches nothing but the files of the prefix: every name it hands
/// out for deletion stands in the listing, begins with the prefix, does not
/// end in `.latest` and is not the pointer.
pub proof fn lemma_pruning_spares_the_rest(
    names: Seq<Seq<char>>,
    prefix: Seq<char>,
    max_files: nat,
    name: Seq<char>,
)
    requires
        files_to_remove(names, prefix, max_files).contains(name),
    ensures
        names.contains(name),
        is_log_file(name, prefix),
{
    let files = log_files(names, prefix);
    let all = ranked(names, prefix);
    lemma_newest_first_is_total();
    files.lemma_sort_by_ensures(newest_first());
    let gone = files_to_remove(names, prefix, max_files);
    let j = choose|j: int| 0 <= j < gone.len() && gone[j] == name;
    assert(all[max_files + j] == name);
    assert(all.contains(name));
    assert(files.contains(name));
    names.lemma_filter_contains_rev(log_file_of(prefix), name);
    let i = choose|i: int| 0 <= i < files.len() && files[i] == name;
    names.lemma_filter_pred(log_file_of(prefix), i);
}

/// Filtering a listing without repeats leaves no repeats, and keeps exactly
/// the entries that pass.
pub proof fn lemma_filter_keeps_names_apart(names: Seq<Seq<char>>, pred: spec_fn(Seq<char>) -> bool)
    requires
        names.no_duplicates(),
    ensures
        names.filter(pred).no_duplicates(),
        forall|name: Seq<char>| #[trigger]
            names.filter(pred).contains(name) <==> names.contains(name) && pred(name),
    decreases names.len(),
{
    reveal(Seq::filter);
    if names.len() > 0 {
        let front = names.drop_last();
        let last = names.last();
        lemma_filter_keeps_names_apart(front, pred);
        assert forall|name: Seq<char>| names.contains(name) <==> front.contains(name) || name
            == last by {
            if names.contains(name) {
                let i = choose|i: int| 0 <= i < names.len() && names[i] == name;
                if i < names.len() - 1 {
                    assert(front[i] == name);
                }
            }
            if front.contains(name) {
                let i = choose|i: int| 0 <= i < front.len() && front[i] == name;
                assert(names[i] == name);
            }
            if name == last {
                assert(names[names.len() - 1] == name);
            }
        }
        assert(!front.contains(last)) by {
            if front.contains(last) {
                let i = choose|i: int| 0 <= i < front.len() && front[i] == last;
                assert(names[i] == names[names.len() - 1]);
            }
        }
        let kept = front.filter(pred);
        if pred(last) {
            assert(names.filter(pred) == kept.push(last));
            assert forall|name: Seq<char>| kept.push(last).contains(name) <==> kept.contains(name)
                || name == last by {
                if kept.push(last).contains(name) {
                    let i = choose|i: int| 0 <= i < kept.push(last).len() && kept.push(last)[i]
                        == name;
                    if i < kept.len() {
                        assert(kept[i] == name);
                    }
                }
                if kept.contains(name) {
                    let i = choose|i: int| 0 <= i < kept.len() && kept[i] == name;
                    assert(kept.push(last)[i] == name);
                }
                if name == last {
                    assert(kept.push(last)[kept.len() as int] == name);
                }
            }
            assert forall|i: int, j: int|
                0 <= i < kept.push(last).len() && 0 <= j < kept.push(last).len() && i
                    != j implies kept.push(last)[i] != kept.push(last)[j] by {
                if i < kept.len() && j < kept.len() {
                } else if i < kept.len() {
                    assert(kept.contains(kept[i]));
                } else {
                    assert(kept.contains(kept[j]));
                }
            }
        }
        assert forall|name: Seq<char>| #[trigger]
            names.filter(pred).contains(name) <==> names.contains(name) && pred(name) by {
            assert(kept.contains(name) <==> front.contains(name) && pred(name));
            assert(names.contains(name) <==> front.contains(name) || name == last);
            if pred(last) {
                assert(kept.push(last).contains(name) <==> kept.contains(name) || name == last);
            }
        }
    }
}

/// After pruning, the cap holds. Where no entry is listed twice, the files
/// left in the folder are the files that were to stay: as many as the cap
/// allows, or all if there were fewer. No other entry is touched.
pub proof fn lemma_pruning_leaves_the_cap(
    names: Seq<Seq<char>>,
    prefix: Seq<char>,
    max_files: nat,
)
    requires
        names.no_duplicates(),
    ensures
        log_files(after_pruning(names, prefix, max_files), prefix).to_set() == files_to_keep(
            names,
            prefix,
            max_files,
        ).to_set(),
        log_files(after_pruning(names, prefix, max_files), prefix).len() == if log_files(
            names,
            prefix,
        ).len() > max_files {
            max_files
        } else {
            log_files(names, prefix).len()
        },
        forall|name: Seq<char>|
            names.contains(name) && !is_log_file(name, prefix) ==> #[trigger] after_pruning(
                names,
                prefix,
                max_files,
            ).contains(name),
{
    let is_file = log_file_of(prefix);
    let spared = spared_by(names, prefix, max_files);
    let files = log_files(names, prefix);
    let all = ranked(names, prefix);
    let keep = files_to_keep(names, prefix, max_files);
    let gone = files_to_remove(names, prefix, max_files);
    let left = after_pruning(names, prefix, max_files);
    let left_files = log_files(left, prefix);
    lemma_pruning_keeps_newest(names, prefix, max_files);
    lemma_filter_keeps_names_apart(names, is_file);
    lemma_filter_keeps_names_apart(names, spared);
    lemma_filter_keeps_names_apart(left, is_file);
    files.to_multiset_ensures();
    all.to_multiset_ensures();
    files.lemma_multiset_has_no_duplicates();
    all.lemma_multiset_has_no_duplicates_conv();
    assert forall|name: Seq<char>| files.contains(name) <==> all.contains(name) by {
        assert(files.to_multiset().count(name) == all.to_multiset().count(name));
    }
    assert forall|name: Seq<char>| all.contains(name) <==> keep.contains(name) || gone.contains(
        name,
    ) by {
        if all.contains(name) {
            let i = choose|i: int| 0 <= i < all.len() && all[i] == name;
            if i < keep.len() {
                assert(keep[i] == name);
            } else {
                assert(gone[i - keep.len()] == name);
            }
        }
        if keep.contains(name) {
            let i = choose|i: int| 0 <= i < keep.len() && keep[i] == name;
            assert(all[i] == name);
        }
        if gone.contains(name) {
            let j = choose|j: int| 0 <= j < gone.len() && gone[j] == name;
            assert(all[keep.len() + j] == name);
        }
    }
    assert forall|name: Seq<char>| !(keep.contains(name) && gone.contains(name)) by {
        if keep.contains(name) && gone.contains(name) {
            let i = choose|i: int| 0 <= i < keep.len() && keep[i] == name;
            let j = choose|j: int| 0 <= j < gone.len() && gone[j] == name;
            assert(all[i] == all[keep.len() + j]);
        }
    }
    assert forall|name: Seq<char>| names.contains(name) && !is_log_file(
        name,
        prefix,
    ) implies #[trigger] left.contains(name) by {
        if gone.contains(name) {
            lemma_pruning_spares_the_rest(names, prefix, max_files, name);
        }
    }
    assert forall|name: Seq<char>| left_files.contains(name) <==> keep.contains(name) by {
        assert(left_files.contains(name) <==> left.contains(name) && is_file(name));
        assert(left.contains(name) <==> names.contains(name) && spared(name));
        assert(files.contains(name) <==> names.contains(name) && is_file(name));
        assert(spared(name) <==> !gone.contains(name));
    }
    assert(left_files.to_set() =~= keep.to_set());
    assert(keep.no_duplicates()) by {
        assert forall|i: int, j: int| 0 <= i < keep.len() && 0 <= j < keep.len() && i
            != j implies keep[i] != keep[j] by {
            assert(keep[i] == all[i] && keep[j] == all[j]);
        }
    }
    left_files.unique_seq_to_set();
    keep.unique_seq_to_set();
}

/// The names of `files` that are later than `name`.
pub open spec fn later_than(files: Set<Seq<char>>, name: Seq<char>) -> Set<Seq<char>> {
    files.filter(|other: Seq<char>| other != name && text_le(name, other))
}

/// The `cap` latest names of `files`: those with fewer than `cap` later
/// names beside them.
pub open spec fn latest(files: Set<Seq<char>>, cap: nat) -> Set<Seq<char>> {
    files.filter(|name: Seq<char>| later_than(files, name).len() < cap)
}

/// The first `cap` names of a ranking without repeats are its `cap` latest.
pub proof fn lemma_latest_of_ranking(all: Seq<Seq<char>>, cap: nat)
    requires
        sorted_by(all, newest_first()),
        all.no_duplicates(),
    ensures
        latest(all.to_set(), cap) == (if all.len() > cap {
            all.take(cap as int)
        } else {
            all
        }).to_set(),
{
    let files = all.to_set();
    let first = if all.len() > cap {
        all.take(cap as int)
    } else {
        all
    };
    assert forall|i: int| 0 <= i < all.len() implies #[trigger] later_than(files, all[i]).len()
        == i by {
        let before = all.take(i);
        assert forall|other: Seq<char>| later_than(files, all[i]).contains(other)
            <==> before.contains(other) by {
            if later_than(files, all[i]).contains(other) {
                let j = choose|j: int| 0 <= j < all.len() && all[j] == other;
                if j > i {
                    assert(newest_first()(all[i], all[j]));
                    lemma_text_le_antisymmetric(all[i], all[j]);
                }
                assert(before[j] == other);
            }
            if before.contains(other) {
                let j = choose|j: int| 0 <= j < before.len() && before[j] == other;
                assert(all[j] == other);
                assert(newest_first()(all[j], all[i]));
            }
        }
        assert(later_than(files, all[i]) =~= before.to_set());
        before.unique_seq_to_set();
    }
    assert forall|name: Seq<char>| latest(files, cap).contains(name) <==> first.contains(
        name,
    ) by {
        if latest(files, cap).contains(name) {
            let i = choose|i: int| 0 <= i < all.len() && all[i] == name;
            assert(later_than(files, all[i]).len() == i);
            assert(first[i] == name);
        }
        if first.contains(name) {
            let i = choose|i: int| 0 <= i < first.len() && first[i] == name;
            assert(all[i] == name);
            assert(later_than(files, all[i]).len() == i);
        }
    }
    assert(latest(files, cap) =~= first.to_set());
}

/// The files that stay are the `max_files` latest of the listing, where no
/// entry is listed twice.
pub proof fn lemma_latest_files_stay(names: Seq<Seq<char>>, prefix: Seq<char>, max_files: nat)
    requires
        names.no_duplicates(),
    ensures
        files_to_keep(names, prefix, max_files).to_set() == latest(
            log_files(names, prefix).to_set(),
            max_files,
        ),
{
    let files = log_files(names, prefix);
    let all = ranked(names, prefix);
    lemma_newest_first_is_total();
    files.lemma_sort_by_ensures(newest_first());
    lemma_filter_keeps_names_apart(names, log_file_of(prefix));
    files.to_multiset_ensures();
    all.to_multiset_ensures();
    files.lemma_multiset_has_no_duplicates();
    all.lemma_multiset_has_no_duplicates_conv();
    assert forall|name: Seq<char>| files.contains(name) <==> all.contains(name) by {
        assert(files.to_multiset().count(name) == all.to_multiset().count(name));
    }
    assert(files.to_set() =~= all.to_set());
    lemma_latest_of_ranking(all, max_files);
}

/// Among dated files with years of four digits, the newest stay: a file
/// that stays was opened no earlier than any file that goes.
pub proof fn lemma_kept_files_are_newest(
    names: Seq<Seq<char>>,
    prefix: Seq<char>,
    max_files: nat,
    kept: Civil,
    gone: Civil,
)
    requires
        is_civil(kept),
        is_civil(gone),
        has_plain_year(kept),
        has_plain_year(gone),
        files_to_keep(names, prefix, max_files).contains(file_name(prefix, kept)),
        files_to_remove(names, prefix, max_files).contains(file_name(prefix, gone)),
    ensures
        !civil_before(kept, gone),
{
    let keep = files_to_keep(names, prefix, max_files);
    let remove = files_to_remove(names, prefix, max_files);
    lemma_pruning_keeps_newest(names, prefix, max_files);
    let i = choose|i: int| 0 <= i < keep.len() && keep[i] == file_name(prefix, kept);
    let j = choose|j: int| 0 <= j < remove.len() && remove[j] == file_name(prefix, gone);
    assert(text_le(remove[j], keep[i]));
    lemma_names_order_as_time(prefix, gone, kept);
}

} // verus!
