//! What the actions mean: a folder in which each action is carried out.

use crate::machine::{open_started, replied, AppenderState};
use crate::datetime::{civil_before, is_civil, Civil};
use crate::naming::{file_name, has_plain_year, lemma_name_shape, lemma_names_order_as_time};
use crate::protocol::{ActionView, EventView, Task};
use crate::retention::{
    after_pruning, files_to_keep, files_to_remove, is_log_file, latest, latest_suffix,
    lemma_filter_keeps_names_apart, lemma_latest_files_stay, lemma_latest_of_ranking,
    lemma_pruning_keeps_newest, lemma_pruning_leaves_the_cap, lemma_pruning_spares_the_rest,
    log_file_of, log_files, ranked, spared_by,
};
use crate::text::{
    lemma_newest_first_is_total, lemma_text_le_antisymmetric, newest_first, text_le,
};
use vstd::prelude::*;
use vstd::relations::sorted_by;
use vstd::seq_lib::seq_to_set_is_finite;

verus! {

/// The entries of a folder.
pub struct Folder {
    /// The names of the files.
    pub files: Set<Seq<char>>,
    /// The pointers by name, and the file that each refers to.
    pub pointers: Map<Seq<char>, Seq<char>>,
}

/// The names of all entries.
pub open spec fn entries(folder: Folder) -> Set<Seq<char>> {
    folder.files.union(folder.pointers.dom())
}

/// The entries that count as files of `prefix`.
pub open spec fn log_entries(folder: Folder, prefix: Seq<char>) -> Set<Seq<char>> {
    entries(folder).filter(log_file_of(prefix))
}

/// The folder once `action` has been carried out. Opening adds the file if
/// it is missing, linking sets the pointer, removing deletes the entries
/// named; no other action adds or deletes an entry.
pub open spec fn carried_out(folder: Folder, action: ActionView) -> Folder {
    match action {
        ActionView::Open { file_name, buffer_capacity } => Folder {
            files: folder.files.insert(file_name),
            ..folder
        },
        ActionView::Link { pointer, target } => Folder {
            pointers: folder.pointers.insert(pointer, target),
            ..folder
        },
        ActionView::Remove { file_names } => Folder {
            files: folder.files.difference(file_names.to_set()),
            pointers: folder.pointers.remove_keys(file_names.to_set()),
        },
        _ => folder,
    }
}

/// `names` lists the folder: every entry, once.
pub open spec fn lists(folder: Folder, names: Seq<Seq<char>>) -> bool {
    names.no_duplicates() && names.to_set() == entries(folder)
}

/// A dated name counts as a file of its prefix.
pub proof fn lemma_dated_names_count(prefix: Seq<char>, at: Civil)
    requires
        is_civil(at),
    ensures
        is_log_file(file_name(prefix, at), prefix),
{
    lemma_name_shape(prefix, at);
    let name = file_name(prefix, at);
    let suffix = latest_suffix();
    if suffix.is_suffix_of(name) {
        assert(name.subrange(name.len() - 7, name.len() as int)[6] == name.last());
        assert(suffix[6] == 't');
    }
}

/// Opening a file in a folder that does as it is told.
///
/// The file is opened, the pointer set and the folder listed; the files
/// beyond the cap are then deleted. Afterwards the pointer refers to the
/// file just opened. The files of the prefix are those that were to stay:
/// as many as there were with the new one, or as many as the cap allows if
/// those were more. Every other entry is still there. The file just opened
/// is among them if the cap is not zero and no file has a later name.
pub proof fn lemma_opening_in_an_obedient_folder<RC>(
    s: AppenderState<RC>,
    task: Task,
    folder: Folder,
    size: u64,
    names: Seq<Seq<char>>,
)
    requires
        is_civil(task.now@),
        lists(
            carried_out(
                carried_out(folder, open_started(s, task).1),
                replied(open_started(s, task).0, EventView::Opened { size }).1,
            ),
            names,
        ),
    ensures
        ({
            let name = file_name(s.prefix, task.now@);
            let cap = s.max_files as nat;
            let (s1, open) = open_started(s, task);
            let (s2, link) = replied(s1, EventView::Opened { size });
            let (s3, list) = replied(s2, EventView::Completed);
            let (s4, last) = replied(s3, EventView::Listed { names });
            let listed = carried_out(carried_out(folder, open), link);
            let pruned = carried_out(listed, last);
            &&& list == ActionView::List
            &&& listed.files.contains(name)
            &&& pruned.pointers.dom().contains(s.prefix)
            &&& pruned.pointers[s.prefix] == name
            &&& log_entries(pruned, s.prefix) == files_to_keep(names, s.prefix, cap).to_set()
            &&& log_entries(pruned, s.prefix).finite()
            &&& log_entries(listed, s.prefix) == log_entries(folder, s.prefix).insert(name)
            &&& log_entries(pruned, s.prefix) == latest(log_entries(listed, s.prefix), cap)
            &&& log_entries(pruned, s.prefix).len() == if log_entries(listed, s.prefix).len()
                > cap {
                cap
            } else {
                log_entries(listed, s.prefix).len()
            }
            &&& forall|entry: Seq<char>|
                entries(listed).contains(entry) && !is_log_file(entry, s.prefix) ==> entries(
                    pruned,
                ).contains(entry)
            &&& cap > 0 && (forall|other: Seq<char>|
                log_entries(listed, s.prefix).contains(other) ==> text_le(other, name))
                ==> pruned.files.contains(name)
        }),
{
    let prefix = s.prefix;
    let name = file_name(prefix, task.now@);
    let cap = s.max_files as nat;
    let (s1, open) = open_started(s, task);
    let (s2, link) = replied(s1, EventView::Opened { size });
    let (s3, list) = replied(s2, EventView::Completed);
    let (s4, last) = replied(s3, EventView::Listed { names });
    let listed = carried_out(carried_out(folder, open), link);
    let pruned = carried_out(listed, last);
    let doomed = files_to_remove(names, prefix, cap);
    let keep = files_to_keep(names, prefix, cap);
    let left = after_pruning(names, prefix, cap);
    let left_files = log_files(left, prefix);
    lemma_pruning_keeps_newest(names, prefix, cap);
    lemma_pruning_leaves_the_cap(names, prefix, cap);
    lemma_filter_keeps_names_apart(names, spared_by(names, prefix, cap));
    lemma_filter_keeps_names_apart(names, log_file_of(prefix));
    lemma_filter_keeps_names_apart(left, log_file_of(prefix));
    lemma_dated_names_count(prefix, task.now@);
    assert(!is_log_file(prefix, prefix));
    assert forall|entry: Seq<char>| doomed.contains(entry) implies is_log_file(
        entry,
        prefix,
    ) && names.contains(entry) by {
        lemma_pruning_spares_the_rest(names, prefix, cap, entry);
    }
    assert forall|entry: Seq<char>| entries(pruned).contains(entry) <==> entries(
        listed,
    ).contains(entry) && !doomed.contains(entry) by {
        if doomed.len() > 0 {
            assert(last == ActionView::Remove { file_names: doomed });
        } else {
            assert(pruned == listed);
        }
    }
    assert(!doomed.contains(prefix));
    assert forall|entry: Seq<char>| log_entries(pruned, prefix).contains(entry)
        <==> left_files.contains(entry) by {
        assert(names.contains(entry) <==> entries(listed).contains(entry));
        assert(left.contains(entry) <==> names.contains(entry) && spared_by(names, prefix, cap)(
            entry,
        ));
        assert(left_files.contains(entry) <==> left.contains(entry) && log_file_of(prefix)(
            entry,
        ));
    }
    assert(log_entries(pruned, prefix) =~= left_files.to_set());
    assert(log_entries(listed, prefix) =~= log_entries(folder, prefix).insert(name));
    let files = log_files(names, prefix);
    assert forall|entry: Seq<char>| log_entries(listed, prefix).contains(entry)
        <==> files.contains(entry) by {
        assert(names.contains(entry) <==> entries(listed).contains(entry));
        assert(files.contains(entry) <==> names.contains(entry) && log_file_of(prefix)(entry));
    }
    assert(log_entries(listed, prefix) =~= files.to_set());
    files.unique_seq_to_set();
    lemma_latest_files_stay(names, prefix, cap);
    left_files.unique_seq_to_set();
    seq_to_set_is_finite(left_files);
    if cap > 0 && (forall|other: Seq<char>|
        log_entries(listed, prefix).contains(other) ==> text_le(other, name)) {
        let all = ranked(names, prefix);
        assert(names.contains(name));
        assert(files.contains(name));
        assert(files.len() > 0);
        assert(keep.len() > 0);
        let first = keep[0];
        assert(keep.contains(first));
        assert(left_files.to_set().contains(first));
        assert(log_entries(pruned, prefix).contains(first));
        assert(log_entries(listed, prefix).contains(first));
        assert(text_le(first, name));
        if first != name {
            lemma_newest_first_is_total();
            files.lemma_sort_by_ensures(newest_first());
            files.to_multiset_ensures();
            all.to_multiset_ensures();
            assert(files.to_multiset().count(name) == all.to_multiset().count(name));
            assert(all.contains(name));
            let i = choose|i: int| 0 <= i < all.len() && all[i] == name;
            assert(all[0] == first);
            assert(i > 0);
            assert(newest_first()(all[0], all[i]));
            lemma_text_le_antisymmetric(first, name);
        }
        assert(!doomed.contains(name)) by {
            if doomed.contains(name) {
                assert(log_entries(pruned, prefix).contains(name));
            }
        }
    }
}

/// The names of the files opened at `times`, in that order.
pub open spec fn names_of(prefix: Seq<char>, times: Seq<Civil>) -> Seq<Seq<char>> {
    Seq::new(times.len(), |i: int| file_name(prefix, times[i]))
}

/// The files of the prefix after one opening at each of `times`, in a folder
/// that does as it is told and held `held` before: each opening adds its
/// file and leaves the `cap` latest.
pub open spec fn retained(held: Set<Seq<char>>, prefix: Seq<char>, cap: nat, times: Seq<Civil>) -> Set<
    Seq<char>,
>
    decreases times.len(),
{
    if times.len() == 0 {
        held
    } else {
        latest(
            retained(held, prefix, cap, times.drop_last()).insert(
                file_name(prefix, times.last()),
            ),
            cap,
        )
    }
}

/// Moments with years of four digits, each later than the one before.
pub open spec fn advancing(times: Seq<Civil>) -> bool {
    &&& forall|i: int| 0 <= i < times.len() ==> is_civil(#[trigger] times[i]) && has_plain_year(times[i])
    &&& forall|i: int, j: int|
        0 <= i < j < times.len() ==> civil_before(#[trigger] times[i], #[trigger] times[j])
}

/// The names of advancing moments are all different, and in reverse they
/// form a ranking, newest first.
pub proof fn lemma_advancing_names(prefix: Seq<char>, times: Seq<Civil>)
    requires
        advancing(times),
    ensures
        names_of(prefix, times).no_duplicates(),
        names_of(prefix, times).reverse().no_duplicates(),
        sorted_by(names_of(prefix, times).reverse(), newest_first()),
        names_of(prefix, times).reverse().to_set() == names_of(prefix, times).to_set(),
{
    let up = names_of(prefix, times);
    let down = up.reverse();
    let n = times.len() as int;
    assert forall|i: int, j: int| 0 <= i < n && 0 <= j < n && i != j implies up[i] != up[j] by {
        lemma_names_order_as_time(prefix, times[i], times[j]);
    }
    assert forall|a: int, b: int| 0 <= a < n && 0 <= b < n && a != b implies down[a]
        != down[b] by {
        assert(down[a] == up[n - 1 - a]);
        assert(down[b] == up[n - 1 - b]);
    }
    assert forall|a: int, b: int| 0 <= a < b < n implies #[trigger] newest_first()(
        down[a],
        down[b],
    ) by {
        assert(civil_before(times[n - 1 - b], times[n - 1 - a]));
        lemma_names_order_as_time(prefix, times[n - 1 - b], times[n - 1 - a]);
    }
    assert forall|name: Seq<char>| down.contains(name) <==> up.contains(name) by {
        if down.contains(name) {
            let a = choose|a: int| 0 <= a < down.len() && down[a] == name;
            assert(up[n - 1 - a] == name);
        }
        if up.contains(name) {
            let i = choose|i: int| 0 <= i < up.len() && up[i] == name;
            assert(down[n - 1 - i] == name);
        }
    }
    assert(down.to_set() =~= up.to_set());
}

/// Where a window of advancing moments ends at the last `cap` of them.
pub open spec fn last_from(times: Seq<Civil>, cap: nat) -> int {
    if times.len() > cap {
        times.len() - cap
    } else {
        0
    }
}

/// Of the files of advancing moments, the `cap` latest are those of the last
/// `cap` moments.
pub proof fn lemma_latest_of_advancing(prefix: Seq<char>, cap: nat, times: Seq<Civil>)
    requires
        advancing(times),
    ensures
        latest(names_of(prefix, times).to_set(), cap) == names_of(
            prefix,
            times.skip(last_from(times, cap)),
        ).to_set(),
{
    let up = names_of(prefix, times);
    let down = up.reverse();
    let n = times.len() as int;
    let from = last_from(times, cap);
    let kept = names_of(prefix, times.skip(from));
    lemma_advancing_names(prefix, times);
    lemma_latest_of_ranking(down, cap);
    let first = if down.len() > cap {
        down.take(cap as int)
    } else {
        down
    };
    assert(first.len() == kept.len());
    assert forall|name: Seq<char>| first.contains(name) <==> kept.contains(name) by {
        if first.contains(name) {
            let j = choose|j: int| 0 <= j < first.len() && first[j] == name;
            assert(down[j] == up[n - 1 - j]);
            assert(kept[kept.len() - 1 - j] == name);
        }
        if kept.contains(name) {
            let i = choose|i: int| 0 <= i < kept.len() && kept[i] == name;
            assert(down[kept.len() - 1 - i] == up[n - 1 - (kept.len() - 1 - i)]);
            assert(first[kept.len() - 1 - i] == name);
        }
    }
    assert(first.to_set() =~= kept.to_set());
}

/// After any number of rollovers the newest files are left. In a folder
/// that held no file of the prefix, after openings at advancing moments, the
/// files of the prefix are those of the last `cap` moments: exactly `cap`
/// of them once there have been that many openings, and all before that.
pub proof fn lemma_the_latest_files_remain(prefix: Seq<char>, cap: nat, times: Seq<Civil>)
    requires
        advancing(times),
    ensures
        retained(Set::empty(), prefix, cap, times) == names_of(
            prefix,
            times.skip(last_from(times, cap)),
        ).to_set(),
        retained(Set::empty(), prefix, cap, times).len() == times.len() - last_from(times, cap),
    decreases times.len(),
{
    let from = last_from(times, cap);
    let kept = names_of(prefix, times.skip(from));
    assert(advancing(times.skip(from)));
    lemma_advancing_names(prefix, times.skip(from));
    kept.unique_seq_to_set();
    if times.len() == 0 {
        assert(kept.to_set() =~= Set::<Seq<char>>::empty());
    } else {
        let earlier = times.drop_last();
        assert(advancing(earlier));
        lemma_the_latest_files_remain(prefix, cap, earlier);
        let start = last_from(earlier, cap);
        let window = times.skip(start);
        let before = names_of(prefix, earlier.skip(start));
        let new = file_name(prefix, times.last());
        let with_new = names_of(prefix, window);
        assert forall|name: Seq<char>| before.to_set().insert(new).contains(name)
            <==> with_new.contains(name) by {
            if before.contains(name) {
                let i = choose|i: int| 0 <= i < before.len() && before[i] == name;
                assert(with_new[i] == name);
            }
            if name == new {
                assert(with_new[window.len() - 1] == name);
            }
            if with_new.contains(name) {
                let i = choose|i: int| 0 <= i < with_new.len() && with_new[i] == name;
                if i < window.len() - 1 {
                    assert(before[i] == name);
                }
            }
        }
        assert(before.to_set().insert(new) =~= with_new.to_set());
        assert(advancing(window));
        lemma_latest_of_advancing(prefix, cap, window);
        assert(window.skip(last_from(window, cap)) =~= times.skip(from));
    }
}

} // verus!
