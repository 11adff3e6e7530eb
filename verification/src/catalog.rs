use crate::error::PracticeError;
use crate::lesson::{Lesson, LessonView};
use crate::lesson_id::{
    id_precedes, lesson_number_of, not_before_chains, precedes, told_apart, well_formed_id,
};
use indexmap::IndexMap;
use vstd::prelude::*;
use vstd::seq_lib::{to_multiset_build, to_multiset_contains, to_multiset_insert};

verus! {

/// `indexmap::IndexMap`, taken as it is: nothing of its inside is known here.
#[verifier::external_type_specification]
#[verifier::external_body]
#[verifier::reject_recursive_types(K)]
#[verifier::reject_recursive_types(V)]
#[verifier::reject_recursive_types(S)]
pub struct ExIndexMap<K, V, S>(IndexMap<K, V, S>);

/// What an `IndexMap` from ids to lessons holds: its pairs of key and value,
/// in the map's own order, which is the order of insertion.
pub uninterp spec fn map_entries(map: IndexMap<String, Lesson>) -> Seq<(Seq<char>, LessonView)>;

/// `IndexMap::new`: the new map holds nothing.
#[verifier::external_body]
fn map_new() -> (map: IndexMap<String, Lesson>)
    ensures
        map_entries(map) == Seq::<(Seq<char>, LessonView)>::empty(),
{
    IndexMap::new()
}

/// `IndexMap::len`: the number of pairs in the map.
#[verifier::external_body]
fn map_len(map: &IndexMap<String, Lesson>) -> (len: usize)
    ensures
        len == map_entries(*map).len(),
{
    map.len()
}

/// `IndexMap::insert`: a key that the map does not hold yet is put last, with
/// its value, and nothing is returned; for a key that it holds, the pair
/// keeps its place, the value is replaced and the old one is returned.
#[verifier::external_body]
fn map_insert(map: &mut IndexMap<String, Lesson>, key: String, lesson: Lesson) -> (replaced:
    Option<Lesson>)
    ensures
        (forall|i: int|
            0 <= i < map_entries(*old(map)).len() ==> map_entries(*old(map))[i].0 != key@)
            ==> replaced is None && map_entries(*final(map)) == map_entries(*old(map)).push(
            (key@, lesson@),
        ),
        forall|i: int|
            0 <= i < map_entries(*old(map)).len() && map_entries(*old(map))[i].0 == key@
                ==> replaced is Some && replaced->0@ == map_entries(*old(map))[i].1
                && map_entries(*final(map)) == map_entries(*old(map)).update(
                i,
                (key@, lesson@),
            ),
{
    map.insert(key, lesson)
}

/// `IndexMap::get_full`: the place and the value of a key that the map holds;
/// nothing for a key that it does not hold.
#[verifier::external_body]
fn map_get_full<'a>(map: &'a IndexMap<String, Lesson>, key: &str) -> (found: Option<
    (usize, &'a Lesson),
>)
    ensures
        match found {
            Some((index, lesson)) => index < map_entries(*map).len() && map_entries(
                *map,
            )[index as int] == (key@, lesson@),
            None => forall|i: int|
                0 <= i < map_entries(*map).len() ==> map_entries(*map)[i].0 != key@,
        },
{
    match map.get_full(key) {
        Some((index, _, lesson)) => Some((index, lesson)),
        None => None,
    }
}

/// `IndexMap::get_index`: the value at a place below the map's length;
/// nothing at any other place.
#[verifier::external_body]
fn map_get_index<'a>(map: &'a IndexMap<String, Lesson>, index: usize) -> (found: Option<
    &'a Lesson,
>)
    ensures
        index < map_entries(*map).len() ==> found is Some && found->0@ == map_entries(
            *map,
        )[index as int].1,
        index >= map_entries(*map).len() ==> found is None,
{
    match map.get_index(index) {
        Some((_, lesson)) => Some(lesson),
        None => None,
    }
}

/// The lessons of a practice course, each under its id, in the order in
/// which they are taken.
pub struct LessonCatalog {
    lessons: IndexMap<String, Lesson>,
}

impl View for LessonCatalog {
    type V = Seq<LessonView>;

    closed spec fn view(&self) -> Seq<LessonView> {
        entry_lessons(map_entries(self.lessons))
    }
}

/// The lessons of a map's pairs, without their keys.
pub open spec fn entry_lessons(entries: Seq<(Seq<char>, LessonView)>) -> Seq<LessonView> {
    entries.map_values(|entry: (Seq<char>, LessonView)| entry.1)
}

/// Each lesson of a sequence as plain values.
pub open spec fn lesson_views(lessons: Seq<Lesson>) -> Seq<LessonView> {
    lessons.map_values(|lesson: Lesson| lesson@)
}

/// Every lesson has an id with a number.
pub open spec fn all_well_formed(lessons: Seq<LessonView>) -> bool {
    forall|i: int| 0 <= i < lessons.len() ==> well_formed_id((#[trigger] lessons[i]).id)
}

/// No two lessons share an id.
pub open spec fn distinct_ids(lessons: Seq<LessonView>) -> bool {
    forall|i: int, j: int|
        0 <= i < j < lessons.len() ==> (#[trigger] lessons[i]).id != (#[trigger] lessons[j]).id
}

/// Some lesson of the sequence has the id.
pub open spec fn holds_id(lessons: Seq<LessonView>, id: Seq<char>) -> bool {
    exists|i: int| 0 <= i < lessons.len() && (#[trigger] lessons[i]).id == id
}

/// No lesson is ordered before the one that stands right in front of it.
pub open spec fn in_order(lessons: Seq<LessonView>) -> bool {
    forall|i: int, j: int|
        0 <= i && j == i + 1 && j < lessons.len() ==> !id_precedes(
            (#[trigger] lessons[j]).id,
            (#[trigger] lessons[i]).id,
        )
}

/// Where a lesson with the given id goes into lessons that are in order:
/// in front of the run of lessons at the end that it is ordered before.
pub open spec fn insert_position(sorted: Seq<LessonView>, id: Seq<char>) -> nat
    decreases sorted.len(),
{
    if sorted.len() > 0 && id_precedes(id, sorted.last().id) {
        insert_position(sorted.drop_last(), id)
    } else {
        sorted.len()
    }
}

/// The lessons in the order of the catalog: each lesson in turn, first seen
/// first, is put into those before it at its `insert_position`. A lesson so
/// moves in front of those that it is ordered before, and of no other.
pub open spec fn sorted_lessons(lessons: Seq<LessonView>) -> Seq<LessonView>
    decreases lessons.len(),
{
    if lessons.len() == 0 {
        lessons
    } else {
        let before = sorted_lessons(lessons.drop_last());
        before.insert(insert_position(before, lessons.last().id) as int, lessons.last())
    }
}

/// What building a catalog from the lessons comes to: an id without a number
/// is refused first, then an id that occurs twice; otherwise the catalog
/// holds the lessons in order.
pub open spec fn build_outcome(lessons: Seq<LessonView>) -> Result<
    Seq<LessonView>,
    PracticeError,
> {
    if !all_well_formed(lessons) {
        Err(PracticeError::MalformedId)
    } else if !distinct_ids(lessons) {
        Err(PracticeError::DuplicateLessonId)
    } else {
        Ok(sorted_lessons(lessons))
    }
}

/// The place of the lesson with the id, if the sequence holds one.
pub open spec fn position_of(lessons: Seq<LessonView>, id: Seq<char>) -> Option<int> {
    if holds_id(lessons, id) {
        Some(choose|i: int| 0 <= i < lessons.len() && (#[trigger] lessons[i]).id == id)
    } else {
        None
    }
}

/// The lesson with the id, or that the id is unknown.
pub open spec fn lookup(lessons: Seq<LessonView>, id: Seq<char>) -> Result<
    LessonView,
    PracticeError,
> {
    match position_of(lessons, id) {
        Some(i) => Ok(lessons[i]),
        None => Err(PracticeError::UnknownLessonId),
    }
}

/// The lesson right after the one with the id, or that there is none: the id
/// is that of the last lesson, or unknown.
pub open spec fn successor(lessons: Seq<LessonView>, id: Seq<char>) -> Result<
    LessonView,
    PracticeError,
> {
    match position_of(lessons, id) {
        Some(i) => if i + 1 < lessons.len() {
            Ok(lessons[i + 1])
        } else {
            Err(PracticeError::NoSuccessorLesson)
        },
        None => Err(PracticeError::NoSuccessorLesson),
    }
}

/// The insert position lies in front of exactly the run at the end that the
/// id is ordered before.
pub proof fn lemma_insert_position(sorted: Seq<LessonView>, id: Seq<char>)
    ensures
        insert_position(sorted, id) <= sorted.len(),
        forall|k: int|
            insert_position(sorted, id) <= k < sorted.len() ==> id_precedes(
                id,
                (#[trigger] sorted[k]).id,
            ),
        insert_position(sorted, id) > 0 ==> !id_precedes(
            id,
            sorted[insert_position(sorted, id) - 1].id,
        ),
    decreases sorted.len(),
{
    if sorted.len() > 0 && id_precedes(id, sorted.last().id) {
        let shorter = sorted.drop_last();
        lemma_insert_position(shorter, id);
        assert forall|k: int| insert_position(sorted, id) <= k < sorted.len() implies id_precedes(
            id,
            (#[trigger] sorted[k]).id,
        ) by {
            if k < shorter.len() {
                assert(sorted[k] == shorter[k]);
            }
        }
    }
}

/// Putting a lesson into a sequence keeps the ids apart exactly when they
/// were apart before and the new id was not among them.
pub proof fn lemma_insert_distinct(lessons: Seq<LessonView>, at: int, lesson: LessonView)
    requires
        0 <= at <= lessons.len(),
    ensures
        distinct_ids(lessons.insert(at, lesson)) <==> distinct_ids(lessons) && !holds_id(
            lessons,
            lesson.id,
        ),
        forall|id: Seq<char>|
            holds_id(lessons.insert(at, lesson), id) <==> holds_id(lessons, id) || id == lesson.id,
        all_well_formed(lessons.insert(at, lesson)) <==> all_well_formed(lessons)
            && well_formed_id(lesson.id),
{
    let longer = lessons.insert(at, lesson);
    assert(longer[at] == lesson);
    assert forall|k: int| 0 <= k < lessons.len() implies lessons[k] == longer[if k < at {
        k
    } else {
        k + 1
    }] by {}
    assert forall|k: int| 0 <= k < longer.len() && k != at implies longer[k] == lessons[if k
        < at {
        k
    } else {
        k - 1
    }] by {}
    if distinct_ids(longer) {
        assert forall|i: int, j: int| 0 <= i < j < lessons.len() implies lessons[i].id
            != lessons[j].id by {
            let i2 = if i < at {
                i
            } else {
                i + 1
            };
            let j2 = if j < at {
                j
            } else {
                j + 1
            };
            assert(longer[i2].id != longer[j2].id);
        }
        if holds_id(lessons, lesson.id) {
            let k = choose|k: int| 0 <= k < lessons.len() && (#[trigger] lessons[k]).id == lesson.id;
            let k2 = if k < at {
                k
            } else {
                k + 1
            };
            if k2 < at {
                assert(longer[k2].id != longer[at].id);
            } else {
                assert(longer[at].id != longer[k2].id);
            }
        }
    }
    if distinct_ids(lessons) && !holds_id(lessons, lesson.id) {
        assert forall|i: int, j: int| 0 <= i < j < longer.len() implies longer[i].id
            != longer[j].id by {
            let i0 = if i < at {
                i
            } else {
                i - 1
            };
            let j0 = if j < at {
                j
            } else {
                j - 1
            };
            if i == at {
                assert(lessons[j0].id != lesson.id);
            } else if j == at {
                assert(lessons[i0].id != lesson.id);
            } else {
                assert(lessons[i0].id != lessons[j0].id);
            }
        }
    }
    assert forall|id: Seq<char>| holds_id(longer, id) <==> holds_id(lessons, id) || id
        == lesson.id by {
        if holds_id(longer, id) {
            let k = choose|k: int| 0 <= k < longer.len() && (#[trigger] longer[k]).id == id;
            if k != at {
                let k0 = if k < at {
                    k
                } else {
                    k - 1
                };
                assert(lessons[k0].id == id);
            }
        }
        if holds_id(lessons, id) {
            let k = choose|k: int| 0 <= k < lessons.len() && (#[trigger] lessons[k]).id == id;
            let k2 = if k < at {
                k
            } else {
                k + 1
            };
            assert(longer[k2].id == id);
        }
        if id == lesson.id {
            assert(longer[at].id == id);
        }
    }
    if all_well_formed(longer) {
        assert forall|k: int| 0 <= k < lessons.len() implies well_formed_id(
            (#[trigger] lessons[k]).id,
        ) by {
            let k2 = if k < at {
                k
            } else {
                k + 1
            };
            assert(well_formed_id(longer[k2].id));
        }
        assert(well_formed_id(longer[at].id));
    }
    if all_well_formed(lessons) && well_formed_id(lesson.id) {
        assert forall|k: int| 0 <= k < longer.len() implies well_formed_id(
            (#[trigger] longer[k]).id,
        ) by {
            if k != at {
                let k0 = if k < at {
                    k
                } else {
                    k - 1
                };
                assert(well_formed_id(lessons[k0].id));
            }
        }
    }
}

/// Of two ids at most one is ordered before the other.
pub proof fn lemma_precedes_one_way(a: Seq<char>, b: Seq<char>)
    ensures
        !(id_precedes(a, b) && id_precedes(b, a)),
{
    crate::lesson_id::lex_less_is_strict(
        crate::lesson_id::lesson_suffix(a),
        crate::lesson_id::lesson_suffix(b),
    );
}

/// Ordering keeps the lessons and changes their places only: the ordered
/// sequence is as long, holds the same ids, has them apart and well formed
/// exactly when they were, and is in order.
pub proof fn lemma_sorted_lessons(lessons: Seq<LessonView>)
    ensures
        sorted_lessons(lessons).len() == lessons.len(),
        forall|id: Seq<char>| holds_id(sorted_lessons(lessons), id) <==> holds_id(lessons, id),
        distinct_ids(sorted_lessons(lessons)) <==> distinct_ids(lessons),
        all_well_formed(sorted_lessons(lessons)) <==> all_well_formed(lessons),
        in_order(sorted_lessons(lessons)),
    decreases lessons.len(),
{
    if lessons.len() > 0 {
        let rest = lessons.drop_last();
        let last = lessons.last();
        let before = sorted_lessons(rest);
        let at = insert_position(before, last.id) as int;
        let sorted = sorted_lessons(lessons);
        lemma_sorted_lessons(rest);
        lemma_insert_position(before, last.id);
        lemma_insert_distinct(before, at, last);
        assert(lessons =~= rest.insert(rest.len() as int, last));
        lemma_insert_distinct(rest, rest.len() as int, last);
        assert forall|id: Seq<char>| holds_id(sorted, id) <==> holds_id(lessons, id) by {
            assert(holds_id(before.insert(at, last), id) <==> holds_id(before, id) || id
                == last.id);
            assert(holds_id(rest.insert(rest.len() as int, last), id) <==> holds_id(rest, id)
                || id == last.id);
            assert(holds_id(before, id) <==> holds_id(rest, id));
        }
        assert forall|i: int, j: int| 0 <= i && j == i + 1 && j < sorted.len() implies !id_precedes(
            (#[trigger] sorted[j]).id,
            (#[trigger] sorted[i]).id,
        ) by {
            if j < at {
                assert(sorted[i] == before[i] && sorted[j] == before[j]);
            } else if j == at {
                assert(sorted[i] == before[at - 1]);
            } else if i == at {
                assert(sorted[j] == before[at]);
                lemma_precedes_one_way(last.id, before[at].id);
            } else {
                assert(sorted[i] == before[i - 1] && sorted[j] == before[j - 1]);
            }
        }
    }
}

/// Where the lesson at place `i` goes among the `i` lessons in front of it.
fn place_among_earlier(lessons: &Vec<Lesson>, i: usize) -> (at: usize)
    requires
        i < lessons@.len(),
        all_well_formed(lesson_views(lessons@)),
    ensures
        at == insert_position(lesson_views(lessons@).take(i as int), lessons@[i as int]@.id),
        at <= i,
{
    let ghost views = lesson_views(lessons@);
    let ghost earlier = views.take(i as int);
    let ghost id = lessons@[i as int]@.id;
    let mut at = i;
    assert(earlier.take(i as int) =~= earlier);
    assert(well_formed_id(views[i as int].id));
    while at > 0
        invariant
            at <= i < lessons@.len(),
            views == lesson_views(lessons@),
            earlier == views.take(i as int),
            id == lessons@[i as int]@.id,
            all_well_formed(views),
            well_formed_id(id),
            insert_position(earlier, id) == insert_position(earlier.take(at as int), id),
        ensures
            at <= i,
            insert_position(earlier, id) == at,
        decreases at,
    {
        assert(well_formed_id(views[at - 1].id));
        assert(earlier.take(at as int).last() == views[at - 1]);
        assert(earlier.take(at as int).drop_last() =~= earlier.take(at - 1));
        if !precedes(lessons[i].id(), lessons[at - 1].id()) {
            break ;
        }
        at -= 1;
    }
    at
}

impl LessonCatalog {
    /// Every id has a number, no id occurs twice, and no lesson is ordered
    /// before the one in front of it. This holds of every catalog.
    pub open spec fn wf(&self) -> bool {
        &&& all_well_formed(self@)
        &&& distinct_ids(self@)
        &&& in_order(self@)
    }

    #[verifier::type_invariant]
    spec fn keyed(self) -> bool {
        &&& forall|i: int|
            0 <= i < map_entries(self.lessons).len() ==> (#[trigger] map_entries(
                self.lessons,
            )[i]).0 == map_entries(self.lessons)[i].1.id
        &&& all_well_formed(entry_lessons(map_entries(self.lessons)))
        &&& distinct_ids(entry_lessons(map_entries(self.lessons)))
        &&& in_order(entry_lessons(map_entries(self.lessons)))
    }

    /// Builds the catalog from lessons in any order. A lesson whose id has no
    /// number is refused as malformed, and after that a second lesson under
    /// one id as a duplicate. Otherwise the catalog holds all the lessons,
    /// ordered by their ids; lessons that the order does not tell apart keep
    /// the order in which they were given.
    pub fn build(lessons: Vec<Lesson>) -> (built: Result<LessonCatalog, PracticeError>)
        ensures
            match built {
                Ok(catalog) => catalog.wf() && build_outcome(lesson_views(lessons@)) == Ok::<
                    Seq<LessonView>,
                    PracticeError,
                >(catalog@),
                Err(e) => build_outcome(lesson_views(lessons@)) == Err::<
                    Seq<LessonView>,
                    PracticeError,
                >(e),
            },
    {
        let ghost given = lesson_views(lessons@);
        let mut ordered = lessons;
        let n = ordered.len();
        let mut checked: usize = 0;
        while checked < n
            invariant
                n == ordered@.len(),
                given == lesson_views(lessons@),
                given == lesson_views(ordered@),
                checked <= n,
                forall|k: int| 0 <= k < checked ==> well_formed_id((#[trigger] given[k]).id),
            decreases n - checked,
        {
            match lesson_number_of(ordered[checked].id()) {
                Ok(_) => {},
                Err(_) => {
                    assert(!well_formed_id(given[checked as int].id));
                    assert(!all_well_formed(given));
                    return Err(PracticeError::MalformedId);
                },
            }
            checked += 1;
        }
        let mut done: usize = 0;
        assert(given.take(0) =~= Seq::empty());
        assert(given.skip(0) =~= given);
        while done < n
            invariant
                n == ordered@.len(),
                n == given.len(),
                done <= n,
                all_well_formed(given),
                all_well_formed(lesson_views(ordered@)),
                lesson_views(ordered@).take(done as int) == sorted_lessons(given.take(done as int)),
                lesson_views(ordered@).skip(done as int) == given.skip(done as int),
            decreases n - done,
        {
            let ghost before = lesson_views(ordered@);
            let at = place_among_earlier(&ordered, done);
            let lesson = ordered.remove(done);
            let ghost moved = lesson@;
            ordered.insert(at, lesson);
            proof {
                let after = lesson_views(ordered@);
                assert(moved == before[done as int]);
                assert(moved == given.skip(done as int)[0]);
                assert(after =~= before.remove(done as int).insert(at as int, moved));
                assert(given.take(done + 1).drop_last() =~= given.take(done as int));
                assert(after.take(done + 1) =~= before.take(done as int).insert(at as int, moved));
                assert(after.skip(done + 1) =~= before.skip(done as int).drop_first());
                assert(given.skip(done + 1) =~= given.skip(done as int).drop_first());
                assert forall|k: int| 0 <= k < after.len() implies well_formed_id(
                    (#[trigger] after[k]).id,
                ) by {
                    if k < at {
                        assert(after[k] == before[k]);
                    } else if k == at {
                        assert(after[k] == before[done as int]);
                    } else if k <= done {
                        assert(after[k] == before[k - 1]);
                    } else {
                        assert(after[k] == before[k]);
                    }
                }
            }
            done += 1;
        }
        let ghost sorted = lesson_views(ordered@);
        proof {
            assert(sorted.take(n as int) =~= sorted);
            assert(given.take(n as int) =~= given);
            lemma_sorted_lessons(given);
        }
        let mut map = map_new();
        for lesson in it: ordered
            invariant
                given == lesson_views(lessons@),
                lesson_views(it.seq()) == sorted,
                sorted == sorted_lessons(given),
                all_well_formed(given),
                entry_lessons(map_entries(map)) == sorted.take(it.index() as int),
                forall|k: int|
                    0 <= k < map_entries(map).len() ==> (#[trigger] map_entries(map)[k]).0
                        == map_entries(map)[k].1.id,
                distinct_ids(sorted.take(it.index() as int)),
        {
            let ghost held = map_entries(map);
            let ghost count = it.index() as int;
            assert(lesson@ == sorted[count]);
            assert(entry_lessons(held).len() == held.len());
            assert(held.len() == count);
            match map_get_full(&map, lesson.id()) {
                Some((twin, _)) => {
                    proof {
                        assert(held[twin as int].1 == sorted.take(count)[twin as int]);
                        assert(sorted[twin as int].id == sorted[count].id);
                        lemma_sorted_lessons(given);
                        assert(!distinct_ids(sorted));
                    }
                    return Err(PracticeError::DuplicateLessonId);
                },
                None => {},
            }
            let key = lesson.id().to_owned();
            map_insert(&mut map, key, lesson);
            proof {
                let longer = sorted.take(count + 1);
                assert(map_entries(map) == held.push((sorted[count].id, sorted[count])));
                assert(entry_lessons(map_entries(map)) =~= longer);
                assert forall|i: int, j: int| 0 <= i < j < longer.len() implies (
                #[trigger] longer[i]).id != (#[trigger] longer[j]).id by {
                    if j < count {
                        assert(sorted.take(count)[i].id != sorted.take(count)[j].id);
                    } else {
                        assert(held[i].0 != sorted[count].id);
                        assert(held[i].1 == sorted.take(count)[i]);
                    }
                }
            }
        }
        proof {
            assert(sorted.take(sorted.len() as int) =~= sorted);
        }
        Ok(LessonCatalog { lessons: map })
    }

    /// Number of lessons.
    pub fn len(&self) -> (len: usize)
        ensures
            len == self@.len(),
    {
        map_len(&self.lessons)
    }

    /// The lesson at a place in the order, counted from zero.
    pub fn lesson_at(&self, index: usize) -> (found: Option<&Lesson>)
        ensures
            index < self@.len() ==> found is Some && found->0@ == self@[index as int],
            index >= self@.len() ==> found is None,
    {
        map_get_index(&self.lessons, index)
    }

    /// The lesson with the given id; an id that no lesson has is unknown.
    pub fn get(&self, id: &str) -> (found: Result<&Lesson, PracticeError>)
        ensures
            match found {
                Ok(lesson) => lookup(self@, id@) == Ok::<LessonView, PracticeError>(lesson@),
                Err(e) => lookup(self@, id@) == Err::<LessonView, PracticeError>(e),
            },
    {
        proof {
            use_type_invariant(self);
        }
        match map_get_full(&self.lessons, id) {
            Some((index, lesson)) => {
                proof {
                    self.lemma_found_at(id@, index as int);
                }
                Ok(lesson)
            },
            None => {
                proof {
                    self.lemma_not_found(id@);
                }
                Err(PracticeError::UnknownLessonId)
            },
        }
    }

    /// The lesson that follows the one with the given id. There is none after
    /// the last lesson, nor after an id that no lesson has.
    pub fn successor_of(&self, id: &str) -> (found: Result<&Lesson, PracticeError>)
        ensures
            match found {
                Ok(lesson) => successor(self@, id@) == Ok::<LessonView, PracticeError>(lesson@),
                Err(e) => successor(self@, id@) == Err::<LessonView, PracticeError>(e),
            },
    {
        proof {
            use_type_invariant(self);
        }
        match map_get_full(&self.lessons, id) {
            Some((index, _)) => {
                proof {
                    self.lemma_found_at(id@, index as int);
                }
                let count = map_len(&self.lessons);
                if index + 1 < count {
                    Ok(map_get_index(&self.lessons, index + 1).unwrap())
                } else {
                    Err(PracticeError::NoSuccessorLesson)
                }
            },
            None => {
                proof {
                    self.lemma_not_found(id@);
                }
                Err(PracticeError::NoSuccessorLesson)
            },
        }
    }

    proof fn lemma_found_at(&self, id: Seq<char>, index: int)
        requires
            self.keyed(),
            0 <= index < map_entries(self.lessons).len(),
            map_entries(self.lessons)[index].0 == id,
        ensures
            position_of(self@, id) == Some(index),
            self@[index] == map_entries(self.lessons)[index].1,
            self@.len() == map_entries(self.lessons).len(),
    {
        assert(self@[index].id == id);
        let chosen = choose|i: int| 0 <= i < self@.len() && (#[trigger] self@[i]).id == id;
        if chosen < index {
            assert(self@[chosen].id != self@[index].id);
        } else if index < chosen {
            assert(self@[index].id != self@[chosen].id);
        }
    }

    proof fn lemma_not_found(&self, id: Seq<char>)
        requires
            self.keyed(),
            forall|i: int|
                0 <= i < map_entries(self.lessons).len() ==> map_entries(self.lessons)[i].0 != id,
        ensures
            position_of(self@, id) is None,
    {
        if holds_id(self@, id) {
            let i = choose|i: int| 0 <= i < self@.len() && (#[trigger] self@[i]).id == id;
            assert(map_entries(self.lessons)[i].0 == map_entries(self.lessons)[i].1.id);
        }
    }
}

/// Where ids are apart, a lesson is found at its own place.
pub proof fn lemma_position_of(lessons: Seq<LessonView>, at: int)
    requires
        distinct_ids(lessons),
        0 <= at < lessons.len(),
    ensures
        position_of(lessons, lessons[at].id) == Some(at),
{
    let id = lessons[at].id;
    let chosen = choose|i: int| 0 <= i < lessons.len() && (#[trigger] lessons[i]).id == id;
    if chosen < at {
        assert(lessons[chosen].id != lessons[at].id);
    } else if at < chosen {
        assert(lessons[at].id != lessons[chosen].id);
    }
}

/// Ordering changes the places of the lessons and nothing else: each lesson
/// is there as often as it was given.
pub proof fn sorted_lessons_are_rearranged(lessons: Seq<LessonView>)
    ensures
        sorted_lessons(lessons).to_multiset() == lessons.to_multiset(),
    decreases lessons.len(),
{
    if lessons.len() > 0 {
        let rest = lessons.drop_last();
        let last = lessons.last();
        let before = sorted_lessons(rest);
        sorted_lessons_are_rearranged(rest);
        lemma_insert_position(before, last.id);
        to_multiset_insert(before, insert_position(before, last.id) as int, last);
        assert(lessons =~= rest.push(last));
        to_multiset_build(rest, last);
    }
}

/// Ordering neither drops nor adds a lesson.
pub proof fn lemma_sorted_same_lessons(lessons: Seq<LessonView>)
    ensures
        forall|lesson: LessonView|
            sorted_lessons(lessons).contains(lesson) <==> lessons.contains(lesson),
{
    sorted_lessons_are_rearranged(lessons);
    assert forall|lesson: LessonView|
        sorted_lessons(lessons).contains(lesson) <==> lessons.contains(lesson) by {
        to_multiset_contains(sorted_lessons(lessons), lesson);
        to_multiset_contains(lessons, lesson);
    }
}

/// Once a catalog is built, every lesson that went in is found under its id,
/// with the text it came with.
pub proof fn built_catalog_returns_each_lesson(lessons: Seq<LessonView>, i: int)
    requires
        build_outcome(lessons) is Ok,
        0 <= i < lessons.len(),
    ensures
        lookup(build_outcome(lessons).unwrap(), lessons[i].id) == Ok::<LessonView, PracticeError>(
            lessons[i],
        ),
{
    let sorted = sorted_lessons(lessons);
    lemma_sorted_lessons(lessons);
    lemma_sorted_same_lessons(lessons);
    assert(lessons.contains(lessons[i]));
    let k = choose|k: int| 0 <= k < sorted.len() && sorted[k] == lessons[i];
    lemma_position_of(sorted, k);
}

/// Nothing follows the last lesson of a catalog.
pub proof fn last_lesson_has_no_successor(catalog: Seq<LessonView>)
    requires
        distinct_ids(catalog),
        catalog.len() > 0,
    ensures
        successor(catalog, catalog.last().id) == Err::<LessonView, PracticeError>(
            PracticeError::NoSuccessorLesson,
        ),
{
    lemma_position_of(catalog, catalog.len() - 1);
}

/// Every lesson but the last is followed by the next in order.
pub proof fn successor_is_the_next_lesson(catalog: Seq<LessonView>, i: int)
    requires
        distinct_ids(catalog),
        0 <= i < catalog.len() - 1,
    ensures
        successor(catalog, catalog[i].id) == Ok::<LessonView, PracticeError>(catalog[i + 1]),
{
    lemma_position_of(catalog, i);
}

/// Ordering is stable: of two lessons, the one given first stays in front
/// unless the other is ordered before it.
pub proof fn first_seen_stays_first(lessons: Seq<LessonView>, i: int, j: int)
    requires
        distinct_ids(lessons),
        0 <= i < j < lessons.len(),
        !id_precedes(lessons[j].id, lessons[i].id),
    ensures
        position_of(sorted_lessons(lessons), lessons[i].id) is Some,
        position_of(sorted_lessons(lessons), lessons[j].id) is Some,
        position_of(sorted_lessons(lessons), lessons[i].id).unwrap() < position_of(
            sorted_lessons(lessons),
            lessons[j].id,
        ).unwrap(),
    decreases lessons.len(),
{
    let rest = lessons.drop_last();
    let last = lessons.last();
    let before = sorted_lessons(rest);
    let at = insert_position(before, last.id) as int;
    let sorted = sorted_lessons(lessons);
    lemma_sorted_lessons(lessons);
    lemma_sorted_lessons(rest);
    lemma_insert_position(before, last.id);
    assert(lessons =~= rest.insert(rest.len() as int, last));
    lemma_insert_distinct(rest, rest.len() as int, last);
    assert(rest[i] == lessons[i]);
    assert(holds_id(rest, lessons[i].id));
    assert(holds_id(before, lessons[i].id));
    let a = choose|k: int| 0 <= k < before.len() && (#[trigger] before[k]).id == lessons[i].id;
    let a2 = if a < at {
        a
    } else {
        a + 1
    };
    assert(sorted[a2] == before[a]);
    lemma_position_of(sorted, a2);
    if j == lessons.len() - 1 {
        assert(sorted[at] == last);
        lemma_position_of(sorted, at);
        if a >= at {
            assert(id_precedes(last.id, before[a].id));
        }
    } else {
        first_seen_stays_first(rest, i, j);
        assert(rest[j] == lessons[j]);
        lemma_position_of(before, a);
        let b = position_of(before, lessons[j].id).unwrap();
        let b2 = if b < at {
            b
        } else {
            b + 1
        };
        assert(sorted[b2] == before[b]);
        lemma_position_of(sorted, b2);
    }
}

/// No lesson is ordered before any lesson that stands in front of it.
pub open spec fn fully_in_order(lessons: Seq<LessonView>) -> bool {
    forall|i: int, j: int|
        0 <= i < j < lessons.len() ==> !id_precedes(
            (#[trigger] lessons[j]).id,
            (#[trigger] lessons[i]).id,
        )
}

/// The order tells every two lessons apart, unless they share their id.
pub open spec fn all_told_apart(lessons: Seq<LessonView>) -> bool {
    forall|i: int, j: int|
        0 <= i < lessons.len() && 0 <= j < lessons.len() ==> told_apart(
            (#[trigger] lessons[i]).id,
            (#[trigger] lessons[j]).id,
        )
}

/// Where the order tells the lessons apart, the catalog's order is the
/// sorted order: no lesson is ordered before one in front of it, next to it
/// or further away. (An id without a suffix beside other ids of its number
/// ties with ids that are themselves ordered. Then no arrangement that is
/// sorted throughout also keeps tied lessons in the order given, so the
/// catalog's own arrangement need not be sorted throughout: given `03b`,
/// `03`, `03a` it keeps them so, and `03a` stands behind `03b`.)
pub proof fn sorted_lessons_are_fully_in_order(lessons: Seq<LessonView>)
    requires
        all_well_formed(lessons),
        all_told_apart(lessons),
    ensures
        fully_in_order(sorted_lessons(lessons)),
    decreases lessons.len(),
{
    if lessons.len() > 0 {
        let rest = lessons.drop_last();
        let last = lessons.last();
        let before = sorted_lessons(rest);
        let at = insert_position(before, last.id) as int;
        let sorted = sorted_lessons(lessons);
        assert forall|i: int| 0 <= i < rest.len() implies well_formed_id(
            (#[trigger] rest[i]).id,
        ) by {
            assert(rest[i] == lessons[i]);
        }
        assert forall|i: int, j: int| 0 <= i < rest.len() && 0 <= j < rest.len() implies told_apart(
            (#[trigger] rest[i]).id,
            (#[trigger] rest[j]).id,
        ) by {
            assert(rest[i] == lessons[i] && rest[j] == lessons[j]);
        }
        sorted_lessons_are_fully_in_order(rest);
        lemma_sorted_lessons(rest);
        lemma_sorted_same_lessons(rest);
        lemma_insert_position(before, last.id);
        assert(lessons[lessons.len() - 1] == last);
        assert forall|k: int| 0 <= k < before.len() implies well_formed_id(
            (#[trigger] before[k]).id,
        ) && told_apart(last.id, before[k].id) && (forall|m: int|
            0 <= m < before.len() ==> told_apart(before[k].id, (#[trigger] before[m]).id)) by {
            assert(before.contains(before[k]));
            assert(rest.contains(before[k]));
            let r = choose|r: int| 0 <= r < rest.len() && rest[r] == before[k];
            assert(lessons[r] == before[k]);
            assert forall|m: int| 0 <= m < before.len() implies told_apart(
                before[k].id,
                (#[trigger] before[m]).id,
            ) by {
                assert(before.contains(before[m]));
                assert(rest.contains(before[m]));
                let q = choose|q: int| 0 <= q < rest.len() && rest[q] == before[m];
                assert(lessons[q] == before[m]);
            }
        }
        assert forall|i: int, j: int| 0 <= i < j < sorted.len() implies !id_precedes(
            (#[trigger] sorted[j]).id,
            (#[trigger] sorted[i]).id,
        ) by {
            if j < at {
                assert(sorted[i] == before[i] && sorted[j] == before[j]);
            } else if j == at {
                assert(sorted[i] == before[i]);
                if i < at - 1 {
                    assert(!id_precedes(before[at - 1].id, before[i].id));
                    assert(well_formed_id(before[at - 1].id));
                    assert(well_formed_id(before[i].id));
                    assert(told_apart(last.id, before[at - 1].id));
                    assert(told_apart(last.id, before[i].id));
                    assert(told_apart(before[at - 1].id, before[i].id));
                    not_before_chains(last.id, before[at - 1].id, before[i].id);
                }
            } else if i == at {
                assert(sorted[j] == before[j - 1]);
                lemma_precedes_one_way(last.id, before[j - 1].id);
            } else if i < at {
                assert(sorted[i] == before[i] && sorted[j] == before[j - 1]);
            } else {
                assert(sorted[i] == before[i - 1] && sorted[j] == before[j - 1]);
            }
        }
    }
}

/// In a catalog that was built, nothing follows the last lesson.
pub proof fn built_catalog_ends_with_its_last_lesson(lessons: Seq<LessonView>)
    requires
        build_outcome(lessons) is Ok,
        lessons.len() > 0,
    ensures
        successor(build_outcome(lessons).unwrap(), build_outcome(lessons).unwrap().last().id)
            == Err::<LessonView, PracticeError>(PracticeError::NoSuccessorLesson),
{
    lemma_sorted_lessons(lessons);
    last_lesson_has_no_successor(sorted_lessons(lessons));
}

} // verus!
