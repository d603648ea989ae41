//! Navigation: after the whole tree is built, every lesson gets links to the
//! lessons before and after it in the global order by position: path
//! position, then course position, then section position, then lesson
//! position (lessons whose positions all agree keep their tree order).
use vstd::prelude::*;
use crate::models::{
    courses_lessons, course_lessons, path_lessons, paths_lessons, sections_lessons, Course,
    Lesson, LessonRef, Path, Section,
};

verus! {

/// The reference that points at a lesson: its display title and URL.
pub open spec fn ref_to(l: Lesson) -> LessonRef {
    LessonRef { title: l.display_title, url: l.url }
}

/// Where a lesson stands: the positions of its path, course, section and
/// its own.
#[derive(Clone, Copy)]
pub struct NavKey {
    pub path: u32,
    pub course: u32,
    pub section: u32,
    pub lesson: u32,
}

/// `a` comes before `b` by path, then course, then section, then lesson
/// position.
pub open spec fn key_lt(a: NavKey, b: NavKey) -> bool {
    ||| a.path < b.path
    ||| a.path == b.path && a.course < b.course
    ||| a.path == b.path && a.course == b.course && a.section < b.section
    ||| a.path == b.path && a.course == b.course && a.section == b.section && a.lesson < b.lesson
}

/// The keys of the lessons of a section of a course of a path.
pub open spec fn section_keys(s: Section, path_pos: u32, course_pos: u32) -> Seq<NavKey> {
    s.lessons@.map_values(|l: Lesson| NavKey { path: path_pos, course: course_pos, section: s.position, lesson: l.position })
}

/// The keys of the lessons of a sequence of sections, section after section.
pub open spec fn sections_keys(ss: Seq<Section>, path_pos: u32, course_pos: u32) -> Seq<NavKey>
    decreases ss.len(),
{
    if ss.len() == 0 {
        Seq::empty()
    } else {
        sections_keys(ss.drop_last(), path_pos, course_pos) + section_keys(ss.last(), path_pos, course_pos)
    }
}

/// The keys of the lessons of a sequence of courses of a path.
pub open spec fn courses_keys(cs: Seq<Course>, path_pos: u32) -> Seq<NavKey>
    decreases cs.len(),
{
    if cs.len() == 0 {
        Seq::empty()
    } else {
        courses_keys(cs.drop_last(), path_pos) + sections_keys(cs.last().sections@, path_pos, cs.last().position)
    }
}

/// The keys of all lessons, in the flat tree order of `paths_lessons`.
pub open spec fn paths_keys(ps: Seq<Path>) -> Seq<NavKey>
    decreases ps.len(),
{
    if ps.len() == 0 {
        Seq::empty()
    } else {
        paths_keys(ps.drop_last()) + courses_keys(ps.last().courses@, ps.last().position)
    }
}

/// In the navigation order, the lesson at flat index `i` comes before the
/// one at `j`: by positions, and by tree order where all positions agree.
pub open spec fn nav_before(keys: Seq<NavKey>, i: int, j: int) -> bool {
    key_lt(keys[i], keys[j]) || (keys[i] == keys[j] && i < j)
}

/// Lesson `j` comes right before lesson `k` in the navigation order.
pub open spec fn is_nav_prev(keys: Seq<NavKey>, j: int, k: int) -> bool {
    &&& 0 <= j < keys.len()
    &&& nav_before(keys, j, k)
    &&& forall|i: int| 0 <= i < keys.len() ==> !(#[trigger] nav_before(keys, j, i) && nav_before(keys, i, k))
}

/// Lesson `j` comes right after lesson `k` in the navigation order.
pub open spec fn is_nav_next(keys: Seq<NavKey>, j: int, k: int) -> bool {
    &&& 0 <= j < keys.len()
    &&& nav_before(keys, k, j)
    &&& forall|i: int| 0 <= i < keys.len() ==> !(#[trigger] nav_before(keys, k, i) && nav_before(keys, i, j))
}

/// The lesson right before lesson `k` in the navigation order, if any.
pub open spec fn nav_prev(keys: Seq<NavKey>, k: int) -> Option<int> {
    if exists|j: int| is_nav_prev(keys, j, k) {
        Some(choose|j: int| is_nav_prev(keys, j, k))
    } else {
        None
    }
}

/// The lesson right after lesson `k` in the navigation order, if any.
pub open spec fn nav_next(keys: Seq<NavKey>, k: int) -> Option<int> {
    if exists|j: int| is_nav_next(keys, j, k) {
        Some(choose|j: int| is_nav_next(keys, j, k))
    } else {
        None
    }
}

/// The reference to lesson `j` of `all`, where there is a `j`.
pub open spec fn ref_of(all: Seq<Lesson>, j: Option<int>) -> Option<LessonRef> {
    match j {
        Some(i) => Some(ref_to(all[i])),
        None => None,
    }
}

/// For each lesson of `all`, the links to the lessons right before and
/// right after it in the navigation order given by `keys`.
pub open spec fn nav_links(all: Seq<Lesson>, keys: Seq<NavKey>) -> Seq<(Option<LessonRef>, Option<LessonRef>)> {
    Seq::new(all.len(), |k: int| (ref_of(all, nav_prev(keys, k)), ref_of(all, nav_next(keys, k))))
}

/// The `k`-th lesson of `all` with its links set to the `k`-th pair of `nav`.
pub open spec fn linked(all: Seq<Lesson>, nav: Seq<(Option<LessonRef>, Option<LessonRef>)>, k: int) -> Lesson {
    Lesson { prev: nav[k].0, next: nav[k].1, ..all[k] }
}

/// The lessons `lo..hi` of `all`, each with its links from `nav`.
pub open spec fn linked_range(all: Seq<Lesson>, nav: Seq<(Option<LessonRef>, Option<LessonRef>)>, lo: int, hi: int) -> Seq<Lesson> {
    Seq::new((hi - lo) as nat, |i: int| linked(all, nav, lo + i))
}

/// Two lessons that agree in everything but their links.
pub open spec fn same_but_links(a: Lesson, b: Lesson) -> bool {
    Lesson { prev: a.prev, next: a.next, ..b } == a
}

/// Two sections that agree in everything but the links of their lessons.
pub open spec fn section_same_shape(a: Section, b: Section) -> bool {
    &&& a.title == b.title
    &&& a.description == b.description
    &&& a.position == b.position
    &&& a.lessons@.len() == b.lessons@.len()
    &&& forall|i: int| 0 <= i < a.lessons@.len() ==> same_but_links(#[trigger] a.lessons@[i], b.lessons@[i])
}

/// Two sequences of sections that agree in everything but lesson links.
pub open spec fn sections_same_shape(a: Seq<Section>, b: Seq<Section>) -> bool {
    &&& a.len() == b.len()
    &&& forall|i: int| 0 <= i < a.len() ==> section_same_shape(#[trigger] a[i], b[i])
}

/// Two courses that agree in everything but lesson links.
pub open spec fn course_same_shape(a: Course, b: Course) -> bool {
    &&& a.slug == b.slug
    &&& a.title == b.title
    &&& a.description == b.description
    &&& a.position == b.position
    &&& a.url == b.url
    &&& a.badge_uri == b.badge_uri
    &&& sections_same_shape(a.sections@, b.sections@)
}

/// Two sequences of courses that agree in everything but lesson links.
pub open spec fn courses_same_shape(a: Seq<Course>, b: Seq<Course>) -> bool {
    &&& a.len() == b.len()
    &&& forall|i: int| 0 <= i < a.len() ==> course_same_shape(#[trigger] a[i], b[i])
}

/// Two paths that agree in everything but lesson links.
pub open spec fn path_same_shape(a: Path, b: Path) -> bool {
    &&& a.slug == b.slug
    &&& a.title == b.title
    &&& a.description == b.description
    &&& a.position == b.position
    &&& a.url == b.url
    &&& courses_same_shape(a.courses@, b.courses@)
}

/// Two sequences of paths that agree in everything but lesson links.
pub open spec fn paths_same_shape(a: Seq<Path>, b: Seq<Path>) -> bool {
    &&& a.len() == b.len()
    &&& forall|i: int| 0 <= i < a.len() ==> path_same_shape(#[trigger] a[i], b[i])
}

/// `after` is `before` with navigation resolved: the tree and every field are
/// unchanged, except that each lesson now links to the lessons right before
/// and right after it in the navigation order by position.
pub open spec fn navigation_resolved(before: Seq<Path>, after: Seq<Path>) -> bool {
    &&& paths_same_shape(before, after)
    &&& paths_lessons(after) == linked_range(
        paths_lessons(before),
        nav_links(paths_lessons(before), paths_keys(before)),
        0,
        paths_lessons(before).len() as int,
    )
}

/// The lessons of two runs of sections are the lessons of the first run
/// followed by those of the second.
pub proof fn lemma_sections_lessons_concat(a: Seq<Section>, b: Seq<Section>)
    ensures
        sections_lessons(a + b) == sections_lessons(a) + sections_lessons(b),
    decreases b.len(),
{
    if b.len() == 0 {
        assert(a + b =~= a);
        assert(sections_lessons(a) + Seq::<Lesson>::empty() =~= sections_lessons(a));
    } else {
        lemma_sections_lessons_concat(a, b.drop_last());
        assert((a + b).drop_last() =~= a + b.drop_last());
        assert(sections_lessons(a + b) =~= sections_lessons(a) + sections_lessons(b));
    }
}

/// The lessons of two runs of courses are the lessons of the first run
/// followed by those of the second.
pub proof fn lemma_courses_lessons_concat(a: Seq<Course>, b: Seq<Course>)
    ensures
        courses_lessons(a + b) == courses_lessons(a) + courses_lessons(b),
    decreases b.len(),
{
    if b.len() == 0 {
        assert(a + b =~= a);
        assert(courses_lessons(a) + Seq::<Lesson>::empty() =~= courses_lessons(a));
    } else {
        lemma_courses_lessons_concat(a, b.drop_last());
        assert((a + b).drop_last() =~= a + b.drop_last());
        assert(courses_lessons(a + b) =~= courses_lessons(a) + courses_lessons(b));
    }
}

/// The lessons of two runs of paths are the lessons of the first run
/// followed by those of the second.
pub proof fn lemma_paths_lessons_concat(a: Seq<Path>, b: Seq<Path>)
    ensures
        paths_lessons(a + b) == paths_lessons(a) + paths_lessons(b),
    decreases b.len(),
{
    if b.len() == 0 {
        assert(a + b =~= a);
        assert(paths_lessons(a) + Seq::<Lesson>::empty() =~= paths_lessons(a));
    } else {
        lemma_paths_lessons_concat(a, b.drop_last());
        assert((a + b).drop_last() =~= a + b.drop_last());
        assert(paths_lessons(a + b) =~= paths_lessons(a) + paths_lessons(b));
    }
}

proof fn lemma_sections_keys_len(ss: Seq<Section>, pp: u32, cp: u32)
    ensures
        sections_keys(ss, pp, cp).len() == sections_lessons(ss).len(),
    decreases ss.len(),
{
    if ss.len() > 0 {
        lemma_sections_keys_len(ss.drop_last(), pp, cp);
    }
}

proof fn lemma_courses_keys_len(cs: Seq<Course>, pp: u32)
    ensures
        courses_keys(cs, pp).len() == courses_lessons(cs).len(),
    decreases cs.len(),
{
    if cs.len() > 0 {
        lemma_courses_keys_len(cs.drop_last(), pp);
        lemma_sections_keys_len(cs.last().sections@, pp, cs.last().position);
    }
}

/// There is one key per lesson.
pub proof fn lemma_paths_keys_len(ps: Seq<Path>)
    ensures
        paths_keys(ps).len() == paths_lessons(ps).len(),
    decreases ps.len(),
{
    if ps.len() > 0 {
        lemma_paths_keys_len(ps.drop_last());
        lemma_courses_keys_len(ps.last().courses@, ps.last().position);
    }
}

proof fn lemma_sections_keys_same(a: Seq<Section>, b: Seq<Section>, pp: u32, cp: u32)
    requires
        sections_same_shape(a, b),
    ensures
        sections_keys(a, pp, cp) == sections_keys(b, pp, cp),
    decreases a.len(),
{
    if a.len() > 0 {
        assert(sections_same_shape(a.drop_last(), b.drop_last())) by {
            assert forall|i: int| 0 <= i < a.drop_last().len() implies section_same_shape(#[trigger] a.drop_last()[i], b.drop_last()[i]) by {
                assert(section_same_shape(a[i], b[i]));
            }
        }
        lemma_sections_keys_same(a.drop_last(), b.drop_last(), pp, cp);
        let x = a.last();
        let y = b.last();
        assert(section_same_shape(x, y));
        assert forall|i: int| 0 <= i < x.lessons@.len() implies x.lessons@[i].position == y.lessons@[i].position by {
            assert(same_but_links(x.lessons@[i], y.lessons@[i]));
        }
        assert(section_keys(x, pp, cp) =~= section_keys(y, pp, cp));
    }
}

proof fn lemma_courses_keys_same(a: Seq<Course>, b: Seq<Course>, pp: u32)
    requires
        courses_same_shape(a, b),
    ensures
        courses_keys(a, pp) == courses_keys(b, pp),
    decreases a.len(),
{
    if a.len() > 0 {
        assert(courses_same_shape(a.drop_last(), b.drop_last())) by {
            assert forall|i: int| 0 <= i < a.drop_last().len() implies course_same_shape(#[trigger] a.drop_last()[i], b.drop_last()[i]) by {
                assert(course_same_shape(a[i], b[i]));
            }
        }
        lemma_courses_keys_same(a.drop_last(), b.drop_last(), pp);
        assert(course_same_shape(a.last(), b.last()));
        lemma_sections_keys_same(a.last().sections@, b.last().sections@, pp, a.last().position);
    }
}

/// Trees that agree in everything but lesson links have the same keys.
pub proof fn lemma_paths_keys_same(a: Seq<Path>, b: Seq<Path>)
    requires
        paths_same_shape(a, b),
    ensures
        paths_keys(a) == paths_keys(b),
    decreases a.len(),
{
    if a.len() > 0 {
        assert(paths_same_shape(a.drop_last(), b.drop_last())) by {
            assert forall|i: int| 0 <= i < a.drop_last().len() implies path_same_shape(#[trigger] a.drop_last()[i], b.drop_last()[i]) by {
                assert(path_same_shape(a[i], b[i]));
            }
        }
        lemma_paths_keys_same(a.drop_last(), b.drop_last());
        assert(path_same_shape(a.last(), b.last()));
        lemma_courses_keys_same(a.last().courses@, b.last().courses@, a.last().position);
    }
}

/// Of two different lessons, one comes before the other, and never both.
proof fn lemma_nav_total(keys: Seq<NavKey>, i: int, j: int)
    ensures
        !nav_before(keys, i, i),
        i != j ==> (nav_before(keys, i, j) || nav_before(keys, j, i)),
        !(nav_before(keys, i, j) && nav_before(keys, j, i)),
{
}

/// The navigation order is transitive.
proof fn lemma_nav_transitive(keys: Seq<NavKey>, i: int, j: int, k: int)
    requires
        nav_before(keys, i, j),
        nav_before(keys, j, k),
    ensures
        nav_before(keys, i, k),
{
}

proof fn lemma_nav_prev_is(keys: Seq<NavKey>, k: int, b: int)
    requires
        0 <= b < keys.len(),
        nav_before(keys, b, k),
        forall|i: int| 0 <= i < keys.len() && #[trigger] nav_before(keys, i, k) ==> i == b || nav_before(keys, i, b),
    ensures
        nav_prev(keys, k) == Some(b),
{
    assert forall|i: int| 0 <= i < keys.len() implies !(#[trigger] nav_before(keys, b, i) && nav_before(keys, i, k)) by {
        lemma_nav_total(keys, b, i);
    }
    assert(is_nav_prev(keys, b, k));
    let w = choose|j: int| is_nav_prev(keys, j, k);
    assert(is_nav_prev(keys, w, k));
    if w != b {
        lemma_nav_total(keys, w, b);
        if nav_before(keys, w, b) {
            assert(!(nav_before(keys, w, b) && nav_before(keys, b, k)));
        } else {
            assert(!(nav_before(keys, b, w) && nav_before(keys, w, k)));
        }
    }
}

proof fn lemma_nav_prev_none(keys: Seq<NavKey>, k: int)
    requires
        forall|i: int| 0 <= i < keys.len() ==> !#[trigger] nav_before(keys, i, k),
    ensures
        nav_prev(keys, k) is None,
{
    if exists|j: int| is_nav_prev(keys, j, k) {
        let w = choose|j: int| is_nav_prev(keys, j, k);
        assert(nav_before(keys, w, k));
    }
}

proof fn lemma_nav_next_is(keys: Seq<NavKey>, k: int, b: int)
    requires
        0 <= b < keys.len(),
        nav_before(keys, k, b),
        forall|i: int| 0 <= i < keys.len() && #[trigger] nav_before(keys, k, i) ==> i == b || nav_before(keys, b, i),
    ensures
        nav_next(keys, k) == Some(b),
{
    assert forall|i: int| 0 <= i < keys.len() implies !(#[trigger] nav_before(keys, k, i) && nav_before(keys, i, b)) by {
        lemma_nav_total(keys, b, i);
    }
    assert(is_nav_next(keys, b, k));
    let w = choose|j: int| is_nav_next(keys, j, k);
    assert(is_nav_next(keys, w, k));
    if w != b {
        lemma_nav_total(keys, w, b);
        if nav_before(keys, w, b) {
            assert(!(nav_before(keys, k, w) && nav_before(keys, w, b)));
        } else {
            assert(!(nav_before(keys, k, b) && nav_before(keys, b, w)));
        }
    }
}

proof fn lemma_nav_next_none(keys: Seq<NavKey>, k: int)
    requires
        forall|i: int| 0 <= i < keys.len() ==> !#[trigger] nav_before(keys, k, i),
    ensures
        nav_next(keys, k) is None,
{
    if exists|j: int| is_nav_next(keys, j, k) {
        let w = choose|j: int| is_nav_next(keys, j, k);
        assert(nav_before(keys, k, w));
    }
}

fn nav_before_exec(keys: &Vec<NavKey>, i: usize, j: usize) -> (res: bool)
    requires
        i < keys@.len(),
        j < keys@.len(),
    ensures
        res == nav_before(keys@, i as int, j as int),
{
    let a = keys[i];
    let b = keys[j];
    if a.path != b.path {
        a.path < b.path
    } else if a.course != b.course {
        a.course < b.course
    } else if a.section != b.section {
        a.section < b.section
    } else if a.lesson != b.lesson {
        a.lesson < b.lesson
    } else {
        i < j
    }
}

fn push_section_keys(out: &mut Vec<NavKey>, pp: u32, cp: u32, s: &Section)
    ensures
        final(out)@ == old(out)@ + section_keys(*s, pp, cp),
{
    let ghost start = out@;
    let mut j: usize = 0;
    while j < s.lessons.len()
        invariant
            j <= s.lessons@.len(),
            out@ == start + section_keys(*s, pp, cp).take(j as int),
        decreases s.lessons@.len() - j,
    {
        out.push(NavKey { path: pp, course: cp, section: s.position, lesson: s.lessons[j].position });
        proof { assert(out@ =~= start + section_keys(*s, pp, cp).take(j + 1)); }
        j = j + 1;
    }
    proof { assert(section_keys(*s, pp, cp).take(s.lessons@.len() as int) =~= section_keys(*s, pp, cp)); }
}

/// The keys of all lessons in the flat tree order.
fn flat_nav_keys(paths: &Vec<Path>) -> (res: Vec<NavKey>)
    ensures
        res@ == paths_keys(paths@),
{
    let mut out: Vec<NavKey> = Vec::new();
    let mut i: usize = 0;
    proof { assert(out@ =~= paths_keys(paths@.take(0))); }
    while i < paths.len()
        invariant
            i <= paths@.len(),
            out@ == paths_keys(paths@.take(i as int)),
        decreases paths@.len() - i,
    {
        let p = &paths[i];
        let ghost base = out@;
        let mut j: usize = 0;
        proof { assert(base + courses_keys(p.courses@.take(0), p.position) =~= base); }
        while j < p.courses.len()
            invariant
                j <= p.courses@.len(),
                out@ == base + courses_keys(p.courses@.take(j as int), p.position),
            decreases p.courses@.len() - j,
        {
            let c = &p.courses[j];
            let ghost mid = out@;
            let mut q: usize = 0;
            proof { assert(mid + sections_keys(c.sections@.take(0), p.position, c.position) =~= mid); }
            while q < c.sections.len()
                invariant
                    q <= c.sections@.len(),
                    out@ == mid + sections_keys(c.sections@.take(q as int), p.position, c.position),
                decreases c.sections@.len() - q,
            {
                push_section_keys(&mut out, p.position, c.position, &c.sections[q]);
                proof {
                    assert(c.sections@.take(q + 1).drop_last() =~= c.sections@.take(q as int));
                    assert(out@ =~= mid + sections_keys(c.sections@.take(q + 1), p.position, c.position));
                }
                q = q + 1;
            }
            proof {
                assert(c.sections@.take(c.sections@.len() as int) =~= c.sections@);
                assert(p.courses@.take(j + 1).drop_last() =~= p.courses@.take(j as int));
                assert(out@ =~= base + courses_keys(p.courses@.take(j + 1), p.position));
            }
            j = j + 1;
        }
        proof {
            assert(p.courses@.take(p.courses@.len() as int) =~= p.courses@);
            assert(paths@.take(i + 1).drop_last() =~= paths@.take(i as int));
        }
        i = i + 1;
    }
    proof { assert(paths@.take(paths@.len() as int) =~= paths@); }
    out
}

/// For every lesson, the references to the lessons right before and after
/// it in the navigation order.
fn compute_links(refs: &Vec<LessonRef>, keys: &Vec<NavKey>, Ghost(all): Ghost<Seq<Lesson>>)
    -> (res: Vec<(Option<LessonRef>, Option<LessonRef>)>)
    requires
        refs@ == all.map_values(|l: Lesson| ref_to(l)),
        keys@.len() == all.len(),
    ensures
        res@ == nav_links(all, keys@),
{
    let n = keys.len();
    let mut out: Vec<(Option<LessonRef>, Option<LessonRef>)> = Vec::new();
    let mut k: usize = 0;
    while k < n
        invariant
            n == keys@.len(),
            n == all.len(),
            refs@ == all.map_values(|l: Lesson| ref_to(l)),
            k <= n,
            out@ == nav_links(all, keys@).take(k as int),
        decreases n - k,
    {
        let ghost ks = keys@;
        let mut bp: Option<usize> = None;
        let mut bn: Option<usize> = None;
        let mut j: usize = 0;
        while j < n
            invariant
                n == keys@.len(),
                ks == keys@,
                k < n,
                j <= n,
                match bp {
                    Some(b) => b < j && nav_before(ks, b as int, k as int)
                        && forall|i: int| 0 <= i < j && #[trigger] nav_before(ks, i, k as int) ==> i == b || nav_before(ks, i, b as int),
                    None => forall|i: int| 0 <= i < j ==> !#[trigger] nav_before(ks, i, k as int),
                },
                match bn {
                    Some(b) => b < j && nav_before(ks, k as int, b as int)
                        && forall|i: int| 0 <= i < j && #[trigger] nav_before(ks, k as int, i) ==> i == b || nav_before(ks, b as int, i),
                    None => forall|i: int| 0 <= i < j ==> !#[trigger] nav_before(ks, k as int, i),
                },
            decreases n - j,
        {
            if nav_before_exec(keys, j, k) {
                let take = match bp {
                    Some(b) => nav_before_exec(keys, b, j),
                    None => true,
                };
                if take {
                    proof {
                        if let Some(b) = bp {
                            assert forall|i: int| 0 <= i < j + 1 && #[trigger] nav_before(ks, i, k as int) implies i == j || nav_before(ks, i, j as int) by {
                                if i < j && i != b {
                                    lemma_nav_transitive(ks, i, b as int, j as int);
                                }
                            }
                        }
                    }
                    bp = Some(j);
                } else {
                    proof {
                        let b = bp->0;
                        lemma_nav_total(ks, b as int, j as int);
                    }
                }
            }
            if nav_before_exec(keys, k, j) {
                let take = match bn {
                    Some(b) => nav_before_exec(keys, j, b),
                    None => true,
                };
                if take {
                    proof {
                        if let Some(b) = bn {
                            assert forall|i: int| 0 <= i < j + 1 && #[trigger] nav_before(ks, k as int, i) implies i == j || nav_before(ks, j as int, i) by {
                                if i < j && i != b {
                                    lemma_nav_transitive(ks, j as int, b as int, i);
                                }
                            }
                        }
                    }
                    bn = Some(j);
                } else {
                    proof {
                        let b = bn->0;
                        lemma_nav_total(ks, b as int, j as int);
                    }
                }
            }
            j = j + 1;
        }
        let prev = match bp {
            Some(b) => Some(copy_ref(&refs[b])),
            None => None,
        };
        let next = match bn {
            Some(b) => Some(copy_ref(&refs[b])),
            None => None,
        };
        proof {
            match bp {
                Some(b) => lemma_nav_prev_is(ks, k as int, b as int),
                None => lemma_nav_prev_none(ks, k as int),
            }
            match bn {
                Some(b) => lemma_nav_next_is(ks, k as int, b as int),
                None => lemma_nav_next_none(ks, k as int),
            }
            assert(prev == ref_of(all, nav_prev(ks, k as int)));
            assert(next == ref_of(all, nav_next(ks, k as int)));
        }
        out.push((prev, next));
        proof { assert(out@ =~= nav_links(all, keys@).take(k + 1)); }
        k = k + 1;
    }
    proof { assert(out@ =~= nav_links(all, keys@)); }
    out
}

/// Where a window of `all` is `pre + mid + post`, the middle part sits
/// right after `pre`.
proof fn lemma_window_middle(all: Seq<Lesson>, base: int, pre: Seq<Lesson>, mid: Seq<Lesson>, post: Seq<Lesson>)
    requires
        0 <= base,
        base + pre.len() + mid.len() + post.len() <= all.len(),
        all.subrange(base, base + pre.len() + mid.len() + post.len()) == pre + mid + post,
    ensures
        all.subrange(base + pre.len(), base + pre.len() + mid.len()) == mid,
{
    let w = pre + mid + post;
    assert forall|i: int| 0 <= i < mid.len() implies all.subrange(base + pre.len(), base + pre.len() + mid.len())[i] == mid[i] by {
        assert(w[pre.len() + i] == mid[i]);
        assert(all.subrange(base, base + w.len())[pre.len() + i] == all[base + pre.len() + i]);
    }
    assert(all.subrange(base + pre.len(), base + pre.len() + mid.len()) =~= mid);
}

proof fn lemma_sections_split(ss: Seq<Section>, i: int)
    requires
        0 <= i < ss.len(),
    ensures
        sections_lessons(ss) == sections_lessons(ss.take(i)) + ss[i].lessons@ + sections_lessons(ss.skip(i + 1)),
        sections_lessons(ss.take(i + 1)) == sections_lessons(ss.take(i)) + ss[i].lessons@,
{
    assert(ss =~= ss.take(i + 1) + ss.skip(i + 1));
    lemma_sections_lessons_concat(ss.take(i + 1), ss.skip(i + 1));
    assert(ss.take(i + 1).drop_last() =~= ss.take(i));
}

proof fn lemma_courses_split(cs: Seq<Course>, i: int)
    requires
        0 <= i < cs.len(),
    ensures
        courses_lessons(cs) == courses_lessons(cs.take(i)) + course_lessons(cs[i]) + courses_lessons(cs.skip(i + 1)),
        courses_lessons(cs.take(i + 1)) == courses_lessons(cs.take(i)) + course_lessons(cs[i]),
{
    assert(cs =~= cs.take(i + 1) + cs.skip(i + 1));
    lemma_courses_lessons_concat(cs.take(i + 1), cs.skip(i + 1));
    assert(cs.take(i + 1).drop_last() =~= cs.take(i));
}

proof fn lemma_paths_split(ps: Seq<Path>, i: int)
    requires
        0 <= i < ps.len(),
    ensures
        paths_lessons(ps) == paths_lessons(ps.take(i)) + path_lessons(ps[i]) + paths_lessons(ps.skip(i + 1)),
        paths_lessons(ps.take(i + 1)) == paths_lessons(ps.take(i)) + path_lessons(ps[i]),
{
    assert(ps =~= ps.take(i + 1) + ps.skip(i + 1));
    lemma_paths_lessons_concat(ps.take(i + 1), ps.skip(i + 1));
    assert(ps.take(i + 1).drop_last() =~= ps.take(i));
}

proof fn lemma_linked_range_append(all: Seq<Lesson>, nav: Seq<(Option<LessonRef>, Option<LessonRef>)>, lo: int, mid: int, hi: int)
    requires
        lo <= mid <= hi,
    ensures
        linked_range(all, nav, lo, mid) + linked_range(all, nav, mid, hi) == linked_range(all, nav, lo, hi),
{
    assert(linked_range(all, nav, lo, mid) + linked_range(all, nav, mid, hi) =~= linked_range(all, nav, lo, hi));
}

fn copy_ref(r: &LessonRef) -> (res: LessonRef)
    ensures
        res == *r,
{
    LessonRef { title: r.title.clone(), url: r.url.clone() }
}

fn copy_opt_ref(r: &Option<LessonRef>) -> (res: Option<LessonRef>)
    ensures
        res == *r,
{
    match r {
        Some(x) => Some(copy_ref(x)),
        None => None,
    }
}

/// References to all lessons in the flat order.
fn flat_lesson_refs(paths: &Vec<Path>) -> (res: Vec<LessonRef>)
    ensures
        res@ == paths_lessons(paths@).map_values(|l: Lesson| ref_to(l)),
{
    let mut refs: Vec<LessonRef> = Vec::new();
    let mut i: usize = 0;
    proof { assert(refs@ =~= paths_lessons(paths@.take(0)).map_values(|l: Lesson| ref_to(l))); }
    while i < paths.len()
        invariant
            i <= paths@.len(),
            refs@ == paths_lessons(paths@.take(i as int)).map_values(|l: Lesson| ref_to(l)),
        decreases paths@.len() - i,
    {
        let ls = paths[i].all_lessons();
        let ghost base = refs@;
        let mut j: usize = 0;
        proof { assert(base + ls@.take(0).map_values(|r: &Lesson| ref_to(*r)) =~= base); }
        while j < ls.len()
            invariant
                j <= ls@.len(),
                refs@ == base + ls@.take(j as int).map_values(|r: &Lesson| ref_to(*r)),
            decreases ls@.len() - j,
        {
            let l = ls[j];
            let r = LessonRef { title: l.display_title.clone(), url: l.url.clone() };
            refs.push(r);
            proof {
                assert(ls@.take(j + 1).map_values(|r: &Lesson| ref_to(*r))
                    =~= ls@.take(j as int).map_values(|r: &Lesson| ref_to(*r)).push(ref_to(*ls@[j as int])));
            }
            j = j + 1;
        }
        proof {
            assert(ls@.take(ls@.len() as int) =~= ls@);
            assert(paths@.take(i + 1).drop_last() =~= paths@.take(i as int));
            let pl = path_lessons(paths@[i as int]);
            assert(ls@.map_values(|r: &Lesson| ref_to(*r)) =~= pl.map_values(|l: Lesson| ref_to(l)));
            assert(paths_lessons(paths@.take(i + 1)).map_values(|l: Lesson| ref_to(l))
                =~= paths_lessons(paths@.take(i as int)).map_values(|l: Lesson| ref_to(l)) + pl.map_values(|l: Lesson| ref_to(l)));
        }
        i = i + 1;
    }
    proof { assert(paths@.take(paths@.len() as int) =~= paths@); }
    refs
}


fn relink_section(s: Section, links: &Vec<(Option<LessonRef>, Option<LessonRef>)>, k: usize, Ghost(all): Ghost<Seq<Lesson>>) -> (res: (Section, usize))
    requires
        links@.len() == all.len(),
        k + s.lessons@.len() <= all.len(),
        all.subrange(k as int, k + s.lessons@.len()) == s.lessons@,
    ensures
        res.1 == k + s.lessons@.len(),
        section_same_shape(s, res.0),
        res.0.lessons@ == linked_range(all, links@, k as int, res.1 as int),
{
    let ghost gs = s;
    let ghost ls = s.lessons@;
    let Section { title, description, position, lessons } = s;
    let mut new_lessons: Vec<Lesson> = Vec::new();
    let mut k = k;
    let ghost k0 = k;
    let n = links.len();
    proof { assert(new_lessons@ =~= linked_range(all, links@, k0 as int, k0 as int)); }
    for l in it: lessons
        invariant
            it.seq() == ls,
            n == links@.len(),
            links@.len() == all.len(),
            k0 + ls.len() <= all.len(),
            all.subrange(k0 as int, k0 + ls.len()) == ls,
            k == k0 + it.index(),
            new_lessons@.len() == it.index(),
            new_lessons@ == linked_range(all, links@, k0 as int, k as int),
            forall|i: int| 0 <= i < it.index() ==> same_but_links(#[trigger] ls[i], new_lessons@[i]),
    {
        let ghost li = it.index() as int;
        let ghost gl = l;
        assert(all[k as int] == all.subrange(k0 as int, k0 + ls.len())[li]);
        assert(gl == all[k as int]);
        let mut l = l;
        let prev = copy_opt_ref(&links[k].0);
        let next = copy_opt_ref(&links[k].1);
        l.prev = prev;
        l.next = next;
        proof {
            assert(l == linked(all, links@, k as int));
        }
        new_lessons.push(l);
        k = k + 1;
        proof {
            assert(new_lessons@ =~= linked_range(all, links@, k0 as int, k as int));
        }
    }
    let res = Section { title, description, position, lessons: new_lessons };
    (res, k)
}

fn relink_course(c: Course, links: &Vec<(Option<LessonRef>, Option<LessonRef>)>, k: usize, Ghost(all): Ghost<Seq<Lesson>>) -> (res: (Course, usize))
    requires
        links@.len() == all.len(),
        k + course_lessons(c).len() <= all.len(),
        all.subrange(k as int, k + course_lessons(c).len()) == course_lessons(c),
    ensures
        res.1 == k + course_lessons(c).len(),
        course_same_shape(c, res.0),
        course_lessons(res.0) == linked_range(all, links@, k as int, res.1 as int),
{
    let ghost gc = c;
    let ghost ss = c.sections@;
    let Course { slug, title, description, position, url, badge_uri, sections } = c;
    let mut new_sections: Vec<Section> = Vec::new();
    let mut k = k;
    let ghost k0 = k;
    proof {
        assert(sections_lessons(new_sections@) =~= linked_range(all, links@, k0 as int, k0 as int));
        assert(ss.take(0) =~= Seq::<Section>::empty());
    }
    for s in it: sections
        invariant
            it.seq() == ss,
            links@.len() == all.len(),
            k0 + sections_lessons(ss).len() <= all.len(),
            all.subrange(k0 as int, k0 + sections_lessons(ss).len()) == sections_lessons(ss),
            k == k0 + sections_lessons(ss.take(it.index() as int)).len(),
            new_sections@.len() == it.index(),
            sections_lessons(new_sections@) == linked_range(all, links@, k0 as int, k as int),
            forall|i: int| 0 <= i < it.index() ==> section_same_shape(#[trigger] ss[i], new_sections@[i]),
    {
        let ghost si = it.index() as int;
        proof {
            lemma_sections_split(ss, si);
            lemma_window_middle(all, k0 as int, sections_lessons(ss.take(si)), ss[si].lessons@, sections_lessons(ss.skip(si + 1)));
        }
        let ghost kb = k;
        let (ns, k2) = relink_section(s, links, k, Ghost(all));
        let ghost before = new_sections@;
        new_sections.push(ns);
        k = k2;
        proof {
            assert(new_sections@.drop_last() =~= before);
            lemma_linked_range_append(all, links@, k0 as int, kb as int, k as int);
        }
    }
    proof { assert(ss.take(ss.len() as int) =~= ss); }
    let res = Course { slug, title, description, position, url, badge_uri, sections: new_sections };
    (res, k)
}

fn relink_path(p: Path, links: &Vec<(Option<LessonRef>, Option<LessonRef>)>, k: usize, Ghost(all): Ghost<Seq<Lesson>>) -> (res: (Path, usize))
    requires
        links@.len() == all.len(),
        k + path_lessons(p).len() <= all.len(),
        all.subrange(k as int, k + path_lessons(p).len()) == path_lessons(p),
    ensures
        res.1 == k + path_lessons(p).len(),
        path_same_shape(p, res.0),
        path_lessons(res.0) == linked_range(all, links@, k as int, res.1 as int),
{
    let ghost cs = p.courses@;
    let Path { slug, title, description, position, url, courses } = p;
    let mut new_courses: Vec<Course> = Vec::new();
    let mut k = k;
    let ghost k0 = k;
    proof {
        assert(courses_lessons(new_courses@) =~= linked_range(all, links@, k0 as int, k0 as int));
        assert(cs.take(0) =~= Seq::<Course>::empty());
    }
    for c in it: courses
        invariant
            it.seq() == cs,
            links@.len() == all.len(),
            k0 + courses_lessons(cs).len() <= all.len(),
            all.subrange(k0 as int, k0 + courses_lessons(cs).len()) == courses_lessons(cs),
            k == k0 + courses_lessons(cs.take(it.index() as int)).len(),
            new_courses@.len() == it.index(),
            courses_lessons(new_courses@) == linked_range(all, links@, k0 as int, k as int),
            forall|i: int| 0 <= i < it.index() ==> course_same_shape(#[trigger] cs[i], new_courses@[i]),
    {
        let ghost ci = it.index() as int;
        proof {
            lemma_courses_split(cs, ci);
            lemma_window_middle(all, k0 as int, courses_lessons(cs.take(ci)), course_lessons(cs[ci]), courses_lessons(cs.skip(ci + 1)));
        }
        let ghost kb = k;
        let (nc, k2) = relink_course(c, links, k, Ghost(all));
        let ghost before = new_courses@;
        new_courses.push(nc);
        k = k2;
        proof {
            assert(new_courses@.drop_last() =~= before);
            lemma_linked_range_append(all, links@, k0 as int, kb as int, k as int);
        }
    }
    proof { assert(cs.take(cs.len() as int) =~= cs); }
    let res = Path { slug, title, description, position, url, courses: new_courses };
    (res, k)
}

/// Resolves the navigation links of every lesson in place: in the global
/// order by path, course, section and lesson position (tree order where all
/// of these agree), each lesson's `prev` and `next` point at the lessons
/// right before and after it; the first lesson has no `prev`, the last no
/// `next`. Nothing else changes.
pub fn resolve_all(paths: &mut Vec<Path>)
    ensures
        navigation_resolved(old(paths)@, final(paths)@),
{
    let refs = flat_lesson_refs(paths);
    let keys = flat_nav_keys(paths);
    let ghost all = paths_lessons(paths@);
    proof { lemma_paths_keys_len(paths@); }
    let links = compute_links(&refs, &keys, Ghost(all));
    let mut old_paths: Vec<Path> = Vec::new();
    std::mem::swap(paths, &mut old_paths);
    let ghost ps = old_paths@;
    let mut new_paths: Vec<Path> = Vec::new();
    let mut k: usize = 0;
    proof {
        assert(paths_lessons(new_paths@) =~= linked_range(all, links@, 0, 0));
        assert(ps.take(0) =~= Seq::<Path>::empty());
        assert(all.subrange(0, all.len() as int) =~= all);
        assert(links@.len() == all.len());
    }
    for p in it: old_paths
        invariant
            it.seq() == ps,
            all == paths_lessons(ps),
            links@ == nav_links(all, paths_keys(ps)),
            links@.len() == all.len(),
            all.subrange(0, all.len() as int) == all,
            k == paths_lessons(ps.take(it.index() as int)).len(),
            new_paths@.len() == it.index(),
            paths_lessons(new_paths@) == linked_range(all, links@, 0, k as int),
            forall|i: int| 0 <= i < it.index() ==> path_same_shape(#[trigger] ps[i], new_paths@[i]),
    {
        let ghost pi = it.index() as int;
        proof {
            lemma_paths_split(ps, pi);
            lemma_window_middle(all, 0, paths_lessons(ps.take(pi)), path_lessons(ps[pi]), paths_lessons(ps.skip(pi + 1)));
        }
        let ghost kb = k;
        let (np, k2) = relink_path(p, &links, k, Ghost(all));
        let ghost before = new_paths@;
        new_paths.push(np);
        k = k2;
        proof {
            assert(new_paths@.drop_last() =~= before);
            lemma_linked_range_append(all, links@, 0, kb as int, k as int);
        }
    }
    proof {
        assert(ps.take(ps.len() as int) =~= ps);
    }
    *paths = new_paths;
}


/// In the tree `ps`, every lesson's `prev` and `next` point at the lessons
/// right before and right after it in the navigation order by position
/// (none where there is no such lesson).
pub open spec fn links_follow_order(ps: Seq<Path>) -> bool {
    let ls = paths_lessons(ps);
    let keys = paths_keys(ps);
    forall|k: int| 0 <= k < ls.len() ==> {
        &&& (#[trigger] ls[k]).prev == ref_of(ls, nav_prev(keys, k))
        &&& ls[k].next == ref_of(ls, nav_next(keys, k))
    }
}

/// After navigation is resolved, the lessons are the same, in the same
/// places, each unchanged but for its links, with the same positions; and
/// every link agrees with the navigation order of the resolved tree: each
/// lesson's `prev` is the lesson right before it by path, course, section
/// and lesson position (tree order where these agree), its `next` the one
/// right after it; the first has no `prev`, the last no `next`.
pub proof fn lemma_links_follow_position_order(before: Seq<Path>, after: Seq<Path>)
    requires
        navigation_resolved(before, after),
    ensures
        paths_lessons(after).len() == paths_lessons(before).len(),
        paths_keys(after) == paths_keys(before),
        forall|k: int| 0 <= k < paths_lessons(after).len()
            ==> same_but_links(#[trigger] paths_lessons(after)[k], paths_lessons(before)[k]),
        links_follow_order(after),
{
    let a = paths_lessons(before);
    let b = paths_lessons(after);
    let keys = paths_keys(before);
    lemma_paths_keys_same(before, after);
    lemma_paths_keys_len(before);
    assert forall|j: int| 0 <= j < b.len() implies ref_to(#[trigger] b[j]) == ref_to(a[j]) by {
        assert(b[j] == linked(a, nav_links(a, keys), j));
    }
    assert forall|k: int| 0 <= k < b.len() implies {
        &&& (#[trigger] b[k]).prev == ref_of(b, nav_prev(keys, k))
        &&& b[k].next == ref_of(b, nav_next(keys, k))
    } by {
        assert(b[k] == linked(a, nav_links(a, keys), k));
        if let Some(j) = nav_prev(keys, k) {
            assert(is_nav_prev(keys, j, k));
            assert(ref_to(b[j]) == ref_to(a[j]));
        }
        if let Some(j) = nav_next(keys, k) {
            assert(is_nav_next(keys, j, k));
            assert(ref_to(b[j]) == ref_to(a[j]));
        }
    }
    assert forall|k: int| 0 <= k < b.len() implies same_but_links(#[trigger] b[k], a[k]) by {
        assert(b[k] == linked(a, nav_links(a, keys), k));
    }
}

/// Resolving navigation a second time changes no lesson: once resolved, the
/// links already are what resolution would set.
pub proof fn lemma_resolve_idempotent(a: Seq<Path>, b: Seq<Path>, c: Seq<Path>)
    requires
        navigation_resolved(a, b),
        navigation_resolved(b, c),
    ensures
        paths_lessons(c) == paths_lessons(b),
        paths_same_shape(b, c),
{
    lemma_links_follow_position_order(a, b);
    let fb = paths_lessons(b);
    let fc = paths_lessons(c);
    let keys = paths_keys(b);
    assert forall|k: int| 0 <= k < fc.len() implies fc[k] == fb[k] by {
        assert(fc[k] == linked(fb, nav_links(fb, keys), k));
        assert(fb[k].prev == ref_of(fb, nav_prev(keys, k)));
        assert(fb[k].next == ref_of(fb, nav_next(keys, k)));
    }
    assert(fc =~= fb);
}

} // verus!
