use crate::list::List;
use crate::date::{date_cmp, Date};
use crate::task::Task;
use crate::text::{matches_hierarchically, tag_matches};
use core::cmp::Ordering;
use vstd::prelude::*;

verus! {

/// A family of tags.
#[derive(Clone, Copy, Debug, PartialEq, Eq, Structural)]
pub enum Type {
    Projects,
    Contexts,
}

/// The tags of `t` in family `kind`.
pub open spec fn tags_of(kind: Type, t: Task) -> Seq<String> {
    match kind {
        Type::Projects => t.projects@,
        Type::Contexts => t.contexts@,
    }
}

/// Whether some task carries `name` in family `kind`.
pub open spec fn has_tag(tasks: Seq<Task>, kind: Type, name: Seq<char>) -> bool {
    exists|i: int, j: int|
        0 <= i < tasks.len() && 0 <= j < tags_of(kind, tasks[i]).len() && #[trigger] tags_of(
            kind,
            tasks[i],
        )[j]@ == name
}

/// Whether `name` is among `names`.
pub open spec fn listed(names: Seq<String>, name: Seq<char>) -> bool {
    exists|k: int| 0 <= k < names.len() && #[trigger] names[k]@ == name
}

/// The texts of the tags of family `kind`, task after task.
pub open spec fn flat_tags(tasks: Seq<Task>, kind: Type) -> Seq<Seq<char>>
    decreases tasks.len(),
{
    if tasks.len() == 0 {
        Seq::empty()
    } else {
        flat_tags(tasks.drop_last(), kind) + tags_of(kind, tasks.last()).map_values(|t: String| t@)
    }
}

/// `s` without repeats, each text where it first comes.
pub open spec fn first_occurrences(s: Seq<Seq<char>>) -> Seq<Seq<char>>
    decreases s.len(),
{
    if s.len() == 0 {
        Seq::empty()
    } else {
        let d = first_occurrences(s.drop_last());
        if d.contains(s.last()) {
            d
        } else {
            d.push(s.last())
        }
    }
}

/// The texts of `names`.
pub open spec fn texts(names: Seq<String>) -> Seq<Seq<char>> {
    names.map_values(|t: String| t@)
}

/// The texts of `names` whose tag is not fully done over `tasks`, in order.
pub open spec fn still_open(names: Seq<Seq<char>>, tasks: Seq<Task>, kind: Type) -> Seq<Seq<char>>
    decreases names.len(),
{
    if names.len() == 0 {
        Seq::empty()
    } else {
        let a = still_open(names.drop_last(), tasks, kind);
        if done_count(tasks, kind, names.last()) != total_count(tasks, kind, names.last()) {
            a.push(names.last())
        } else {
            a
        }
    }
}

/// Whether `names` holds `name`.
fn contains_name(names: &Vec<String>, name: &String) -> (r: bool)
    ensures
        r == listed(names@, name@),
{
    let mut k: usize = 0;
    while k < names.len()
        invariant
            k <= names@.len(),
            forall|m: int| 0 <= m < k ==> names@[m]@ != name@,
        decreases names@.len() - k,
    {
        if names[k] == *name {
            return true;
        }
        k = k + 1;
    }
    false
}

/// The distinct tags of family `kind` over `tasks`, in order of discovery.
pub fn distinct_tags(tasks: &Vec<Task>, kind: Type) -> (r: Vec<String>)
    ensures
        texts(r@) == first_occurrences(flat_tags(tasks@, kind)),
        forall|k: int| 0 <= k < r@.len() ==> has_tag(tasks@, kind, #[trigger] r@[k]@),
        forall|name: Seq<char>| has_tag(tasks@, kind, name)
            ==> exists|k: int| 0 <= k < r@.len() && #[trigger] r@[k]@ == name,
        forall|k1: int, k2: int| 0 <= k1 < k2 < r@.len() ==> r@[k1]@ != r@[k2]@,
{
    let mut r: Vec<String> = Vec::new();
    let mut i: usize = 0;
    while i < tasks.len()
        invariant
            i <= tasks@.len(),
            texts(r@) == first_occurrences(flat_tags(tasks@.subrange(0, i as int), kind)),
            forall|k: int| 0 <= k < r@.len() ==> has_tag(tasks@, kind, #[trigger] r@[k]@),
            forall|i2: int, j2: int|
                0 <= i2 < i && 0 <= j2 < tags_of(kind, tasks@[i2]).len() ==> listed(
                    r@,
                    #[trigger] tags_of(kind, tasks@[i2])[j2]@,
                ),
            forall|k1: int, k2: int| 0 <= k1 < k2 < r@.len() ==> r@[k1]@ != r@[k2]@,
        decreases tasks@.len() - i,
    {
        let tags = Tags::get_tags(kind, &tasks[i]);
        let mut j: usize = 0;
        while j < tags.len()
            invariant
                i < tasks@.len(),
                tags@ == tags_of(kind, tasks@[i as int]),
                j <= tags@.len(),
                texts(r@) == first_occurrences(
                    flat_tags(tasks@.subrange(0, i as int), kind) + texts(tags@.subrange(0, j as int)),
                ),
                forall|k: int| 0 <= k < r@.len() ==> has_tag(tasks@, kind, #[trigger] r@[k]@),
                forall|i2: int, j2: int|
                    0 <= i2 < i && 0 <= j2 < tags_of(kind, tasks@[i2]).len() ==> listed(
                        r@,
                        #[trigger] tags_of(kind, tasks@[i2])[j2]@,
                    ),
                forall|j2: int| 0 <= j2 < j ==> listed(r@, #[trigger] tags@[j2]@),
                forall|k1: int, k2: int| 0 <= k1 < k2 < r@.len() ==> r@[k1]@ != r@[k2]@,
            decreases tags@.len() - j,
        {
            let ghost old_r = r@;
            proof {
                let pre = flat_tags(tasks@.subrange(0, i as int), kind) + texts(tags@.subrange(0, j as int));
                let post = flat_tags(tasks@.subrange(0, i as int), kind) + texts(tags@.subrange(0, j + 1));
                assert(post.drop_last() =~= pre);
                assert(post.last() == tags@[j as int]@);
                let d = first_occurrences(pre);
                assert(d.contains(tags@[j as int]@) <==> listed(r@, tags@[j as int]@)) by {
                    if d.contains(tags@[j as int]@) {
                        let k = choose|k: int| 0 <= k < d.len() && d[k] == tags@[j as int]@;
                        assert(r@[k]@ == d[k]);
                    }
                    if listed(r@, tags@[j as int]@) {
                        let k = choose|k: int| 0 <= k < r@.len() && #[trigger] r@[k]@ == tags@[j as int]@;
                        assert(d[k] == r@[k]@);
                    }
                }
            }
            if !contains_name(&r, &tags[j]) {
                r.push(tags[j].clone());
                proof {
                    assert(tags_of(kind, tasks@[i as int])[j as int]@ == r@[r@.len() - 1]@);
                    assert forall|name: Seq<char>| listed(old_r, name) implies listed(r@, name) by {
                        let k = choose|k: int| 0 <= k < old_r.len() && #[trigger] old_r[k]@ == name;
                        assert(r@[k]@ == name);
                    }
                    assert(listed(r@, tags@[j as int]@)) by {
                        assert(r@[r@.len() - 1]@ == tags@[j as int]@);
                    }
                }
            }
            proof {
                let post = flat_tags(tasks@.subrange(0, i as int), kind) + texts(tags@.subrange(0, j + 1));
                assert(texts(r@) =~= first_occurrences(post));
            }
            j = j + 1;
        }
        proof {
            let next = tasks@.subrange(0, i + 1);
            assert(next.drop_last() =~= tasks@.subrange(0, i as int));
            assert(next.last() == tasks@[i as int]);
            assert(tags@.subrange(0, tags@.len() as int) =~= tags@);
            assert(flat_tags(next, kind) =~= flat_tags(tasks@.subrange(0, i as int), kind) + texts(tags@));
        }
        i = i + 1;
    }
    assert(tasks@.subrange(0, tasks@.len() as int) =~= tasks@);
    proof {
        assert forall|name: Seq<char>| has_tag(tasks@, kind, name) implies exists|k: int|
            0 <= k < r@.len() && #[trigger] r@[k]@ == name by {
            let (i2, j2) = choose|i2: int, j2: int|
                0 <= i2 < tasks@.len() && 0 <= j2 < tags_of(kind, tasks@[i2]).len()
                    && #[trigger] tags_of(kind, tasks@[i2])[j2]@ == name;
            assert(listed(r@, tags_of(kind, tasks@[i2])[j2]@));
        }
    }
    r
}

/// Whether one of the tags of `t` in family `kind` matches `current`
/// hierarchically.
pub open spec fn task_has_match(t: Task, kind: Type, current: Seq<char>) -> bool {
    exists|j: int|
        0 <= j < tags_of(kind, t).len() && tag_matches(#[trigger] tags_of(kind, t)[j]@, current)
}

/// How many of `tasks` have a tag matching `current`.
pub open spec fn total_count(tasks: Seq<Task>, kind: Type, current: Seq<char>) -> nat
    decreases tasks.len(),
{
    if tasks.len() == 0 {
        0
    } else {
        total_count(tasks.drop_last(), kind, current) + (if task_has_match(
            tasks.last(),
            kind,
            current,
        ) {
            1nat
        } else {
            0nat
        })
    }
}

/// How many of `tasks` have a tag matching `current` and are finished.
pub open spec fn done_count(tasks: Seq<Task>, kind: Type, current: Seq<char>) -> nat
    decreases tasks.len(),
{
    if tasks.len() == 0 {
        0
    } else {
        done_count(tasks.drop_last(), kind, current) + (if task_has_match(
            tasks.last(),
            kind,
            current,
        ) && tasks.last().finished {
            1nat
        } else {
            0nat
        })
    }
}

/// Whether some tag is exactly one of the filters.
pub open spec fn filtered(tags: Seq<String>, filters: Seq<String>) -> bool {
    exists|i: int, j: int|
        0 <= i < filters.len() && 0 <= j < tags.len() && #[trigger] tags[j]@ == #[trigger] filters[i]@
}

/// Whether `t` is shown: unfinished, tagged in family `kind`, carrying one of
/// the filters exactly when there are any, and past its threshold date.
pub open spec fn is_visible(t: Task, kind: Type, filters: Seq<String>, today: Date) -> bool {
    &&& !t.finished
    &&& tags_of(kind, t).len() > 0
    &&& filters.len() == 0 || filtered(tags_of(kind, t), filters)
    &&& match t.threshold_date {
        None => true,
        Some(d) => date_cmp(d, today) != Ordering::Greater,
    }
}

/// The visible tasks of `tasks`, in their order.
pub open spec fn visible_of(tasks: Seq<Task>, kind: Type, filters: Seq<String>, today: Date) -> Seq<
    Task,
>
    decreases tasks.len(),
{
    if tasks.len() == 0 {
        Seq::empty()
    } else {
        visible_of(tasks.drop_last(), kind, filters, today) + (if is_visible(
            tasks.last(),
            kind,
            filters,
            today,
        ) {
            seq![tasks.last()]
        } else {
            Seq::empty()
        })
    }
}

pub proof fn lemma_counts_bounded(tasks: Seq<Task>, kind: Type, current: Seq<char>)
    ensures
        done_count(tasks, kind, current) <= total_count(tasks, kind, current) <= tasks.len(),
    decreases tasks.len(),
{
    if tasks.len() > 0 {
        lemma_counts_bounded(tasks.drop_last(), kind, current);
    }
}

/// The state of a tag view: its tasks and the family it shows.
pub struct Model {
    pub list: List,
    pub tag: Type,
}

/// A tag is fully done, and so left out of the active filters, exactly when
/// every task that matches it hierarchically is finished; one unfinished
/// matching task keeps it active.
pub proof fn lemma_done_iff_all_finished(tasks: Seq<Task>, kind: Type, current: Seq<char>)
    ensures
        done_count(tasks, kind, current) == total_count(tasks, kind, current) <==> forall|i: int|
            0 <= i < tasks.len() && task_has_match(#[trigger] tasks[i], kind, current)
                ==> tasks[i].finished,
    decreases tasks.len(),
{
    if tasks.len() > 0 {
        let rest = tasks.drop_last();
        lemma_done_iff_all_finished(rest, kind, current);
        lemma_counts_bounded(rest, kind, current);
        if forall|i: int|
            0 <= i < tasks.len() && task_has_match(#[trigger] tasks[i], kind, current)
                ==> tasks[i].finished {
            assert forall|i: int|
                0 <= i < rest.len() && task_has_match(#[trigger] rest[i], kind, current)
                    implies rest[i].finished by {
                assert(rest[i] == tasks[i]);
            }
        } else {
            let i = choose|i: int|
                0 <= i < tasks.len() && task_has_match(#[trigger] tasks[i], kind, current)
                    && !tasks[i].finished;
            if i < rest.len() {
                assert(rest[i] == tasks[i]);
            } else {
                assert(tasks[i] == tasks.last());
            }
        }
    }
}

/// Tag queries over a task list.
pub struct Tags {}

impl Tags {
    /// The state of a view of family `tag`, with no tasks yet.
    pub fn model(tag: Type) -> (r: Model)
        ensures
            r.list.tasks@.len() == 0,
            r.tag == tag,
    {
        Model { list: List::new(), tag }
    }

    /// The tags of `task` in family `tag`.
    pub fn get_tags(tag: Type, task: &Task) -> (r: &Vec<String>)
        ensures
            r@ == tags_of(tag, *task),
    {
        match tag {
            Type::Projects => &task.projects,
            Type::Contexts => &task.contexts,
        }
    }

    /// Whether `tag` is `filter` or one of its hyphen-delimited sub-tags.
    pub fn matches(tag: &str, filter: &str) -> (r: bool)
        ensures
            r == tag_matches(tag@, filter@),
    {
        matches_hierarchically(tag, filter)
    }

    /// Whether one of the tags of `task` in family `tag` matches `current`.
    fn has_match(tag: Type, task: &Task, current: &str) -> (r: bool)
        ensures
            r == task_has_match(*task, tag, current@),
    {
        let tags = Tags::get_tags(tag, task);
        let mut j: usize = 0;
        while j < tags.len()
            invariant
                tags@ == tags_of(tag, *task),
                j <= tags@.len(),
                forall|j2: int| 0 <= j2 < j ==> !tag_matches(#[trigger] tags@[j2]@, current@),
            decreases tags@.len() - j,
        {
            if matches_hierarchically(tags[j].as_str(), current) {
                return true;
            }
            j = j + 1;
        }
        false
    }

    /// How many tasks have a tag matching `current`, as (finished, all).
    pub fn get_progress(tag: Type, list: &List, current: &str) -> (r: (u32, u32))
        requires
            list.tasks@.len() <= u32::MAX,
        ensures
            r.0 == done_count(list.tasks@, tag, current@),
            r.1 == total_count(list.tasks@, tag, current@),
    {
        let tasks = &list.tasks;
        let mut done: u32 = 0;
        let mut total: u32 = 0;
        let mut i: usize = 0;
        while i < tasks.len()
            invariant
                tasks@ == list.tasks@,
                tasks@.len() <= u32::MAX,
                i <= tasks@.len(),
                done == done_count(tasks@.subrange(0, i as int), tag, current@),
                total == total_count(tasks@.subrange(0, i as int), tag, current@),
            decreases tasks@.len() - i,
        {
            proof {
                let s = tasks@.subrange(0, i + 1);
                assert(s.drop_last() =~= tasks@.subrange(0, i as int));
                lemma_counts_bounded(tasks@.subrange(0, i as int), tag, current@);
            }
            if Tags::has_match(tag, &tasks[i], current) {
                if tasks[i].finished {
                    done = done + 1;
                }
                total = total + 1;
            }
            i = i + 1;
        }
        assert(tasks@.subrange(0, tasks@.len() as int) =~= tasks@);
        (done, total)
    }

    /// Whether one of `tags` is exactly one of `filters`.
    pub fn has_filter(tags: &[String], filters: &[String]) -> (r: bool)
        ensures
            r == filtered(tags@, filters@),
    {
        let mut i: usize = 0;
        while i < filters.len()
            invariant
                i <= filters@.len(),
                forall|i2: int, j2: int|
                    0 <= i2 < i && 0 <= j2 < tags@.len() ==> #[trigger] tags@[j2]@
                        != #[trigger] filters@[i2]@,
            decreases filters@.len() - i,
        {
            let mut j: usize = 0;
            while j < tags.len()
                invariant
                    i < filters@.len(),
                    j <= tags@.len(),
                    forall|i2: int, j2: int|
                        0 <= i2 < i && 0 <= j2 < tags@.len() ==> #[trigger] tags@[j2]@
                            != #[trigger] filters@[i2]@,
                    forall|j2: int| 0 <= j2 < j ==> #[trigger] tags@[j2]@ != filters@[i as int]@,
                decreases tags@.len() - j,
            {
                if tags[j] == filters[i] {
                    return true;
                }
                j = j + 1;
            }
            i = i + 1;
        }
        false
    }

    /// The tags of family `tag` that are not yet fully done, each with its
    /// progress (finished, all) over the tasks that match it hierarchically.
    pub fn update_tags(tag: Type, list: &List) -> (r: Vec<(String, u32, u32)>)
        requires
            list.tasks@.len() <= u32::MAX,
        ensures
            r@.map_values(|e: (String, u32, u32)| e.0@) == still_open(
                first_occurrences(flat_tags(list.tasks@, tag)),
                list.tasks@,
                tag,
            ),
            forall|k: int|
                0 <= k < r@.len() ==> {
                    let name = (#[trigger] r@[k]).0@;
                    &&& has_tag(list.tasks@, tag, name)
                    &&& r@[k].1 == done_count(list.tasks@, tag, name)
                    &&& r@[k].2 == total_count(list.tasks@, tag, name)
                    &&& r@[k].1 != r@[k].2
                },
            forall|name: Seq<char>|
                has_tag(list.tasks@, tag, name) && done_count(list.tasks@, tag, name)
                    != total_count(list.tasks@, tag, name) ==> exists|k: int|
                    0 <= k < r@.len() && (#[trigger] r@[k]).0@ == name,
            forall|k1: int, k2: int| 0 <= k1 < k2 < r@.len() ==> r@[k1].0@ != r@[k2].0@,
    {
        let names = match tag {
            Type::Projects => list.projects(),
            Type::Contexts => list.contexts(),
        };
        let mut r: Vec<(String, u32, u32)> = Vec::new();
        let mut k: usize = 0;
        while k < names.len()
            invariant
                list.tasks@.len() <= u32::MAX,
                k <= names@.len(),
                texts(names@) == first_occurrences(flat_tags(list.tasks@, tag)),
                r@.map_values(|e: (String, u32, u32)| e.0@) == still_open(
                    texts(names@).subrange(0, k as int),
                    list.tasks@,
                    tag,
                ),
                forall|m: int| 0 <= m < names@.len() ==> has_tag(list.tasks@, tag, #[trigger] names@[m]@),
                forall|m1: int, m2: int| 0 <= m1 < m2 < names@.len() ==> names@[m1]@ != names@[m2]@,
                forall|m: int|
                    0 <= m < r@.len() ==> {
                        let name = (#[trigger] r@[m]).0@;
                        &&& has_tag(list.tasks@, tag, name)
                        &&& r@[m].1 == done_count(list.tasks@, tag, name)
                        &&& r@[m].2 == total_count(list.tasks@, tag, name)
                        &&& r@[m].1 != r@[m].2
                        &&& exists|n: int| 0 <= n < k && names@[n]@ == name
                    },
                forall|n: int|
                    0 <= n < k && done_count(list.tasks@, tag, #[trigger] names@[n]@) != total_count(
                        list.tasks@,
                        tag,
                        names@[n]@,
                    ) ==> exists|m: int| 0 <= m < r@.len() && (#[trigger] r@[m]).0@ == names@[n]@,
                forall|m1: int, m2: int| 0 <= m1 < m2 < r@.len() ==> r@[m1].0@ != r@[m2].0@,
            decreases names@.len() - k,
        {
            let (done, total) = Tags::get_progress(tag, list, names[k].as_str());
            proof {
                let next = texts(names@).subrange(0, k + 1);
                assert(next.drop_last() =~= texts(names@).subrange(0, k as int));
                assert(next.last() == names@[k as int]@);
            }
            if done != total {
                let ghost old_r = r@;
                proof {
                    assert forall|m: int| 0 <= m < old_r.len() implies old_r[m].0@ != names@[k as int]@ by {
                        let n = choose|n: int| 0 <= n < k && names@[n]@ == old_r[m].0@;
                    }
                }
                r.push((names[k].clone(), done, total));
                proof {
                    assert forall|n: int|
                        0 <= n < k + 1 && done_count(list.tasks@, tag, #[trigger] names@[n]@)
                            != total_count(list.tasks@, tag, names@[n]@) implies exists|m: int|
                        0 <= m < r@.len() && (#[trigger] r@[m]).0@ == names@[n]@ by {
                        if n == k {
                            assert(r@[r@.len() - 1].0@ == names@[n]@);
                        } else {
                            let m = choose|m: int| 0 <= m < old_r.len() && (#[trigger] old_r[m]).0@ == names@[n]@;
                            assert(r@[m] == old_r[m]);
                        }
                    }
                }
            }
            assert(r@.map_values(|e: (String, u32, u32)| e.0@) =~= still_open(
                texts(names@).subrange(0, k + 1),
                list.tasks@,
                tag,
            ));
            k = k + 1;
        }
        assert(texts(names@).subrange(0, names@.len() as int) =~= texts(names@));
        proof {
            assert forall|name: Seq<char>|
                has_tag(list.tasks@, tag, name) && done_count(list.tasks@, tag, name)
                    != total_count(list.tasks@, tag, name) implies exists|k: int|
                0 <= k < r@.len() && (#[trigger] r@[k]).0@ == name by {
                let n = choose|n: int| 0 <= n < names@.len() && #[trigger] names@[n]@ == name;
                assert(done_count(list.tasks@, tag, names@[n]@) != total_count(list.tasks@, tag, names@[n]@));
            }
        }
        r
    }

    /// The visible tasks of `list` for family `tag` and `filters` on day
    /// `today`, in list order.
    pub fn update_tasks(tag: Type, list: &List, filters: &[String], today: Date) -> (r: Vec<Task>)
        ensures
            r@.len() == visible_of(list.tasks@, tag, filters@, today).len(),
            forall|k: int|
                0 <= k < r@.len() ==> (#[trigger] r@[k]).same_as(
                    &visible_of(list.tasks@, tag, filters@, today)[k],
                ),
    {
        let tasks = &list.tasks;
        let mut r: Vec<Task> = Vec::new();
        let mut i: usize = 0;
        while i < tasks.len()
            invariant
                tasks@ == list.tasks@,
                i <= tasks@.len(),
                r@.len() == visible_of(tasks@.subrange(0, i as int), tag, filters@, today).len(),
                forall|k: int|
                    0 <= k < r@.len() ==> (#[trigger] r@[k]).same_as(
                        &visible_of(tasks@.subrange(0, i as int), tag, filters@, today)[k],
                    ),
            decreases tasks@.len() - i,
        {
            let task = &tasks[i];
            let tags = Tags::get_tags(tag, task);
            let past_threshold = match &task.threshold_date {
                None => true,
                Some(d) => !matches!(d.cmp(&today), Ordering::Greater),
            };
            let shown = !task.finished && tags.len() > 0 && (filters.len() == 0 || Tags::has_filter(
                tags.as_slice(),
                filters,
            )) && past_threshold;
            proof {
                let s = tasks@.subrange(0, i + 1);
                assert(s.drop_last() =~= tasks@.subrange(0, i as int));
                assert(s.last() == tasks@[i as int]);
            }
            if shown {
                r.push(task.duplicate());
            }
            i = i + 1;
        }
        assert(tasks@.subrange(0, tasks@.len() as int) =~= tasks@);
        r
    }
}

} // verus!
