//! Building the curriculum tree from manifests and lesson sources.
//!
//! Reading files is left to the caller: each lesson comes with a
//! [`LessonSource`], the path of its `.md` file and the text read from it.
use vstd::prelude::*;
use crate::manifest::{
    CourseManifest, CurriculumManifest, LessonManifest, NestedCourseData, NestedCurriculumManifest, NestedLessonValue,
    NestedPathData, NestedSectionData, PathManifest, SectionManifest,
};
use crate::models::{course_lessons, courses_lessons, path_lessons, paths_lessons, sections_lessons, Breadcrumb, Course, Lesson, Path, SearchEntry, SearchEntryView, Section, Theme};
use crate::models::Curriculum;
use crate::parser::markdown::{render, rendered_html};
use crate::parser::navigation::{
    lemma_links_follow_position_order, links_follow_order, navigation_resolved, resolve_all, course_same_shape,
    path_same_shape, same_but_links, section_same_shape,
};
use crate::text::{prefix_chars, slug_of, slugify, strip_html_tags, tags_stripped, take_chars, title_case, title_cased};

pub mod markdown;
pub mod navigation;

verus! {

/// A lesson's source file: where it was found and what it holds.
pub struct LessonSource {
    pub source_path: String,
    pub markdown: String,
}

/// What decides one lesson of the tree besides its source: its manifest
/// entry and where it stands.
pub struct LessonInput {
    pub title: Seq<char>,
    pub description: Seq<char>,
    pub is_project: bool,
    pub position: u32,
    pub path_slug: Seq<char>,
    pub course_slug: Seq<char>,
    pub path_url: Seq<char>,
    pub course_url: Seq<char>,
}

/// The title shown for a lesson: prefixed with "Project: " for projects.
pub open spec fn display_title_for(title: Seq<char>, is_project: bool) -> Seq<char> {
    if is_project {
        "Project: "@ + title
    } else {
        title
    }
}

/// A breadcrumb with this label, URL and current flag.
pub open spec fn crumb_is(b: Breadcrumb, label: Seq<char>, url: Seq<char>, current: bool) -> bool {
    &&& b.label@ == label
    &&& b.url@ == url
    &&& b.is_current == current
}

/// A readable title for a slug: its `-`-separated words capitalized.
pub open spec fn slug_title(slug: Seq<char>) -> Seq<char> {
    title_cased(slug, '-')
}

/// The lesson that `input` and `source` describe, in every field but its
/// navigation links: slug and URL from the slugified title, output path
/// `<path>/<course>/<slug>/index.html`, the rendered markdown as its HTML,
/// and the trail Curriculum → path → course → this lesson, whose crumb is
/// the current one and has an empty URL.
pub open spec fn lesson_built(l: Lesson, input: LessonInput, source: LessonSource) -> bool {
    let slug = slug_of(input.title);
    let url = input.course_url + slug + "/"@;
    let display = display_title_for(input.title, input.is_project);
    &&& l.slug@ == slug
    &&& l.title@ == input.title
    &&& l.display_title@ == display
    &&& l.description@ == input.description
    &&& l.position == input.position
    &&& l.is_project == input.is_project
    &&& l.source_path@ == source.source_path@
    &&& l.output_path@ == input.path_slug + "/"@ + input.course_slug + "/"@ + slug + "/index.html"@
    &&& l.url@ == url
    &&& l.html_content matches Some(h) && h@ == rendered_html(source.markdown@)
    &&& l.breadcrumbs@.len() == 4
    &&& crumb_is(l.breadcrumbs@[0], "Curriculum"@, "/"@, false)
    &&& crumb_is(l.breadcrumbs@[1], slug_title(input.path_slug), input.path_url, false)
    &&& crumb_is(l.breadcrumbs@[2], slug_title(input.course_slug), input.course_url, false)
    &&& crumb_is(l.breadcrumbs@[3], display, Seq::empty(), true)
}

/// A lesson without navigation links yet.
pub open spec fn unlinked(l: Lesson) -> bool {
    l.prev is None && l.next is None
}

/// Converts a slug back to a readable title: the words between `-` each
/// capitalized and joined with spaces.
pub fn path_slug_to_title(slug: &str) -> (res: String)
    ensures
        res@ == slug_title(slug@),
{
    title_case(slug, '-')
}

/// The same conversion for course slugs.
pub fn course_slug_to_title(slug: &str) -> (res: String)
    ensures
        res@ == slug_title(slug@),
{
    path_slug_to_title(slug)
}

fn crumb(label: String, url: &str, is_current: bool) -> (res: Breadcrumb)
    ensures
        crumb_is(res, label@, url@, is_current),
{
    Breadcrumb { label, url: url.to_string(), is_current }
}

fn concat2(a: &str, b: &str) -> (res: String)
    ensures
        res@ == a@ + b@,
{
    let mut s = a.to_string();
    s.append(b);
    s
}

/// Builds one lesson from its manifest entry and source: slug from the
/// title, URL under the course URL, output path, rendered HTML, display
/// title and breadcrumbs. Navigation links are left empty. The section the
/// lesson belongs to does not appear in its trail.
pub fn parse_lesson(
    lm: &LessonManifest,
    path_slug: &str,
    course_slug: &str,
    course_url: &str,
    path_url: &str,
    position: u32,
    _section: &SectionManifest,
    source: &LessonSource,
) -> (res: Lesson)
    ensures
        lesson_built(res, LessonInput {
            title: lm.title@,
            description: lm.description@,
            is_project: lm.is_project,
            position,
            path_slug: path_slug@,
            course_slug: course_slug@,
            path_url: path_url@,
            course_url: course_url@,
        }, *source),
        unlinked(res),
{
    build_lesson(lm.title.as_str(), lm.description.as_str(), lm.is_project, position, path_slug,
        course_slug, path_url, course_url, source)
}

/// Builds one lesson from its parts; see `parse_lesson`.
pub fn build_lesson(
    title: &str,
    description: &str,
    is_project: bool,
    position: u32,
    path_slug: &str,
    course_slug: &str,
    path_url: &str,
    course_url: &str,
    source: &LessonSource,
) -> (res: Lesson)
    ensures
        lesson_built(res, LessonInput {
            title: title@,
            description: description@,
            is_project,
            position,
            path_slug: path_slug@,
            course_slug: course_slug@,
            path_url: path_url@,
            course_url: course_url@,
        }, *source),
        unlinked(res),
{
    let lesson_slug = slugify(title);
    let mut lesson_url = concat2(course_url, lesson_slug.as_str());
    lesson_url.append("/");
    let mut output_path = concat2(path_slug, "/");
    output_path.append(course_slug);
    output_path.append("/");
    output_path.append(lesson_slug.as_str());
    output_path.append("/index.html");
    let html_content = render(source.markdown.as_str());
    let display_title = if is_project {
        concat2("Project: ", title)
    } else {
        title.to_string()
    };
    let mut breadcrumbs: Vec<Breadcrumb> = Vec::new();
    breadcrumbs.push(crumb("Curriculum".to_string(), "/", false));
    breadcrumbs.push(crumb(path_slug_to_title(path_slug), path_url, false));
    breadcrumbs.push(crumb(course_slug_to_title(course_slug), course_url, false));
    proof {
        reveal_strlit("");
        assert(""@ =~= Seq::<char>::empty());
    }
    breadcrumbs.push(crumb(display_title.clone(), "", true));
    Lesson {
        slug: lesson_slug,
        title: title.to_string(),
        display_title,
        description: description.to_string(),
        position,
        is_project,
        source_path: source.source_path.clone(),
        output_path,
        url: lesson_url,
        html_content: Some(html_content),
        prev: None,
        next: None,
        breadcrumbs,
    }
}


/// Each lesson of `ls` is the lesson that the input and source at the same
/// place describe (but for its links).
pub open spec fn lessons_built(ls: Seq<Lesson>, inputs: Seq<LessonInput>, sources: Seq<LessonSource>) -> bool {
    &&& ls.len() == inputs.len()
    &&& ls.len() == sources.len()
    &&& forall|m: int| 0 <= m < ls.len() ==> lesson_built(#[trigger] ls[m], inputs[m], sources[m])
}

/// No lesson of `ls` has navigation links.
pub open spec fn all_unlinked(ls: Seq<Lesson>) -> bool {
    forall|m: int| 0 <= m < ls.len() ==> unlinked(#[trigger] ls[m])
}

proof fn lemma_lessons_built_concat(
    a: Seq<Lesson>, ia: Seq<LessonInput>, sa: Seq<LessonSource>,
    b: Seq<Lesson>, ib: Seq<LessonInput>, sb: Seq<LessonSource>,
)
    requires
        lessons_built(a, ia, sa),
        lessons_built(b, ib, sb),
    ensures
        lessons_built(a + b, ia + ib, sa + sb),
{
    assert forall|m: int| 0 <= m < (a + b).len() implies lesson_built(#[trigger] (a + b)[m], (ia + ib)[m], (sa + sb)[m]) by {
        if m < a.len() {
            assert(lesson_built(a[m], ia[m], sa[m]));
        } else {
            assert(lesson_built(b[m - a.len()], ib[m - a.len()], sb[m - a.len()]));
        }
    }
}

proof fn lemma_all_unlinked_concat(a: Seq<Lesson>, b: Seq<Lesson>)
    requires
        all_unlinked(a),
        all_unlinked(b),
    ensures
        all_unlinked(a + b),
{
    assert forall|m: int| 0 <= m < (a + b).len() implies unlinked(#[trigger] (a + b)[m]) by {
        if m < a.len() {
            assert(unlinked(a[m]));
        } else {
            assert(unlinked(b[m - a.len()]));
        }
    }
}

/// The inputs of the lessons of a section manifest, in order; positions
/// count from 1.
pub open spec fn section_inputs(
    sm: SectionManifest, path_slug: Seq<char>, course_slug: Seq<char>, path_url: Seq<char>, course_url: Seq<char>,
) -> Seq<LessonInput> {
    Seq::new(sm.lessons@.len(), |i: int| LessonInput {
        title: sm.lessons@[i].title@,
        description: sm.lessons@[i].description@,
        is_project: sm.lessons@[i].is_project,
        position: (i + 1) as u32,
        path_slug,
        course_slug,
        path_url,
        course_url,
    })
}

/// The lesson inputs of a sequence of section manifests, section after
/// section.
pub open spec fn sections_inputs(
    ss: Seq<SectionManifest>, path_slug: Seq<char>, course_slug: Seq<char>, path_url: Seq<char>, course_url: Seq<char>,
) -> Seq<LessonInput>
    decreases ss.len(),
{
    if ss.len() == 0 {
        Seq::empty()
    } else {
        sections_inputs(ss.drop_last(), path_slug, course_slug, path_url, course_url)
            + section_inputs(ss.last(), path_slug, course_slug, path_url, course_url)
    }
}

/// The URL of a course under a path URL: `<path_url><slug>/`.
pub open spec fn course_url_for(path_url: Seq<char>, title: Seq<char>) -> Seq<char> {
    path_url + slug_of(title) + "/"@
}

/// The lesson inputs of a course manifest.
pub open spec fn course_inputs(cm: CourseManifest, path_slug: Seq<char>, path_url: Seq<char>) -> Seq<LessonInput> {
    sections_inputs(cm.sections@, path_slug, slug_of(cm.title@), path_url, course_url_for(path_url, cm.title@))
}

/// The lesson inputs of a sequence of course manifests.
pub open spec fn courses_inputs(cs: Seq<CourseManifest>, path_slug: Seq<char>, path_url: Seq<char>) -> Seq<LessonInput>
    decreases cs.len(),
{
    if cs.len() == 0 {
        Seq::empty()
    } else {
        courses_inputs(cs.drop_last(), path_slug, path_url) + course_inputs(cs.last(), path_slug, path_url)
    }
}

/// The URL of a path: `/<slug>/`.
pub open spec fn path_url_for(slug: Seq<char>) -> Seq<char> {
    "/"@ + slug + "/"@
}

/// The lesson inputs of a path manifest.
pub open spec fn path_inputs(pm: PathManifest) -> Seq<LessonInput> {
    courses_inputs(pm.courses@, slug_of(pm.title@), path_url_for(slug_of(pm.title@)))
}

/// The lesson inputs of a sequence of path manifests: the manifest order
/// of all lessons.
pub open spec fn paths_inputs(pms: Seq<PathManifest>) -> Seq<LessonInput>
    decreases pms.len(),
{
    if pms.len() == 0 {
        Seq::empty()
    } else {
        paths_inputs(pms.drop_last()) + path_inputs(pms.last())
    }
}

/// A section built from its manifest: same title, description and position,
/// one lesson per manifest lesson.
pub open spec fn section_fields(s: Section, sm: SectionManifest) -> bool {
    &&& s.title@ == sm.title@
    &&& s.description@ == sm.description@
    &&& s.position == sm.position
    &&& s.lessons@.len() == sm.lessons@.len()
}

/// A course built from its manifest under `path_url`.
pub open spec fn course_fields(c: Course, cm: CourseManifest, path_url: Seq<char>) -> bool {
    &&& c.slug@ == slug_of(cm.title@)
    &&& c.title@ == cm.title@
    &&& c.description@ == cm.description@
    &&& c.position == cm.position
    &&& c.url@ == course_url_for(path_url, cm.title@)
    &&& c.badge_uri == cm.badge_uri
    &&& c.sections@.len() == cm.sections@.len()
    &&& forall|j: int| 0 <= j < c.sections@.len() ==> section_fields(#[trigger] c.sections@[j], cm.sections@[j])
}

/// A path built from its manifest.
pub open spec fn path_fields(p: Path, pm: PathManifest) -> bool {
    &&& p.slug@ == slug_of(pm.title@)
    &&& p.title@ == pm.title@
    &&& p.description@ == pm.description@
    &&& p.position == pm.position
    &&& p.url@ == path_url_for(slug_of(pm.title@))
    &&& p.courses@.len() == pm.courses@.len()
    &&& forall|j: int| 0 <= j < p.courses@.len() ==> course_fields(#[trigger] p.courses@[j], pm.courses@[j], p.url@)
}

proof fn lemma_sections_inputs_concat(
    a: Seq<SectionManifest>, b: Seq<SectionManifest>,
    ps: Seq<char>, cs: Seq<char>, pu: Seq<char>, cu: Seq<char>,
)
    ensures
        sections_inputs(a + b, ps, cs, pu, cu) == sections_inputs(a, ps, cs, pu, cu) + sections_inputs(b, ps, cs, pu, cu),
    decreases b.len(),
{
    if b.len() == 0 {
        assert(a + b =~= a);
        assert(sections_inputs(a, ps, cs, pu, cu) + Seq::<LessonInput>::empty() =~= sections_inputs(a, ps, cs, pu, cu));
    } else {
        lemma_sections_inputs_concat(a, b.drop_last(), ps, cs, pu, cu);
        assert((a + b).drop_last() =~= a + b.drop_last());
        assert(sections_inputs(a + b, ps, cs, pu, cu) =~= sections_inputs(a, ps, cs, pu, cu) + sections_inputs(b, ps, cs, pu, cu));
    }
}

/// Builds a section from its manifest and the sources of its lessons, in
/// order; lesson `i` gets position `i + 1`.
pub fn parse_section(
    sm: &SectionManifest,
    path_slug: &str,
    course_slug: &str,
    course_url: &str,
    path_url: &str,
    sources: &[LessonSource],
) -> (res: Section)
    requires
        sources@.len() == sm.lessons@.len(),
        sm.lessons@.len() <= u32::MAX,
    ensures
        section_fields(res, *sm),
        lessons_built(res.lessons@, section_inputs(*sm, path_slug@, course_slug@, path_url@, course_url@), sources@),
        all_unlinked(res.lessons@),
{
    let ghost ins = section_inputs(*sm, path_slug@, course_slug@, path_url@, course_url@);
    let mut lessons: Vec<Lesson> = Vec::new();
    let mut i: usize = 0;
    while i < sm.lessons.len()
        invariant
            i <= sm.lessons@.len(),
            sources@.len() == sm.lessons@.len(),
            sm.lessons@.len() <= u32::MAX,
            ins == section_inputs(*sm, path_slug@, course_slug@, path_url@, course_url@),
            lessons@.len() == i,
            forall|m: int| 0 <= m < i ==> lesson_built(#[trigger] lessons@[m], ins[m], sources@[m]),
            all_unlinked(lessons@),
        decreases sm.lessons@.len() - i,
    {
        let position: u32 = (i + 1) as u32;
        let l = parse_lesson(&sm.lessons[i], path_slug, course_slug, course_url, path_url, position, sm, &sources[i]);
        proof {
            assert(ins[i as int] == LessonInput {
                title: sm.lessons@[i as int].title@,
                description: sm.lessons@[i as int].description@,
                is_project: sm.lessons@[i as int].is_project,
                position,
                path_slug: path_slug@,
                course_slug: course_slug@,
                path_url: path_url@,
                course_url: course_url@,
            });
        }
        lessons.push(l);
        i = i + 1;
    }
    Section {
        title: sm.title.clone(),
        description: sm.description.clone(),
        position: sm.position,
        lessons,
    }
}


proof fn lemma_courses_inputs_concat(a: Seq<CourseManifest>, b: Seq<CourseManifest>, ps: Seq<char>, pu: Seq<char>)
    ensures
        courses_inputs(a + b, ps, pu) == courses_inputs(a, ps, pu) + courses_inputs(b, ps, pu),
    decreases b.len(),
{
    if b.len() == 0 {
        assert(a + b =~= a);
        assert(courses_inputs(a, ps, pu) + Seq::<LessonInput>::empty() =~= courses_inputs(a, ps, pu));
    } else {
        lemma_courses_inputs_concat(a, b.drop_last(), ps, pu);
        assert((a + b).drop_last() =~= a + b.drop_last());
        assert(courses_inputs(a + b, ps, pu) =~= courses_inputs(a, ps, pu) + courses_inputs(b, ps, pu));
    }
}

proof fn lemma_paths_inputs_concat(a: Seq<PathManifest>, b: Seq<PathManifest>)
    ensures
        paths_inputs(a + b) == paths_inputs(a) + paths_inputs(b),
    decreases b.len(),
{
    if b.len() == 0 {
        assert(a + b =~= a);
        assert(paths_inputs(a) + Seq::<LessonInput>::empty() =~= paths_inputs(a));
    } else {
        lemma_paths_inputs_concat(a, b.drop_last());
        assert((a + b).drop_last() =~= a + b.drop_last());
        assert(paths_inputs(a + b) =~= paths_inputs(a) + paths_inputs(b));
    }
}

/// Every section of the course manifest has at most `u32::MAX` lessons,
/// so that lesson positions fit.
pub open spec fn course_positions_fit(cm: CourseManifest) -> bool {
    forall|j: int| 0 <= j < cm.sections@.len() ==> (#[trigger] cm.sections@[j]).lessons@.len() <= u32::MAX
}

/// Every course of the path manifest has positions that fit.
pub open spec fn path_positions_fit(pm: PathManifest) -> bool {
    forall|j: int| 0 <= j < pm.courses@.len() ==> course_positions_fit(#[trigger] pm.courses@[j])
}

/// Builds a course from its manifest under a path and the sources of its
/// lessons in manifest order: slug from the title, URL under the path URL.
pub fn parse_course(cm: &CourseManifest, path_slug: &str, path_url: &str, sources: &[LessonSource]) -> (res: Course)
    requires
        sources@.len() == course_inputs(*cm, path_slug@, path_url@).len(),
        course_positions_fit(*cm),
    ensures
        course_fields(res, *cm, path_url@),
        lessons_built(course_lessons(res), course_inputs(*cm, path_slug@, path_url@), sources@),
        all_unlinked(course_lessons(res)),
{
    let course_slug = slugify(cm.title.as_str());
    let mut course_url = concat2(path_url, course_slug.as_str());
    course_url.append("/");
    let ghost ss = cm.sections@;
    let ghost cs = course_slug@;
    let ghost cu = course_url@;
    let mut sections: Vec<Section> = Vec::new();
    let total = sources.len();
    let mut k: usize = 0;
    let mut j: usize = 0;
    proof {
        assert(ss.take(0) =~= Seq::<SectionManifest>::empty());
        assert(sources@.subrange(0, 0) =~= Seq::<LessonSource>::empty());
    }
    while j < cm.sections.len()
        invariant
            j <= ss.len(),
            ss == cm.sections@,
            course_positions_fit(*cm),
            sources@.len() == sections_inputs(ss, path_slug@, cs, path_url@, cu).len(),
            k == sections_inputs(ss.take(j as int), path_slug@, cs, path_url@, cu).len(),
            k <= sources@.len(),
            total == sources@.len(),
            cs == course_slug@,
            cu == course_url@,
            cu == course_url_for(path_url@, cm.title@),
            cs == slug_of(cm.title@),
            sections@.len() == j,
            forall|m: int| 0 <= m < j ==> section_fields(#[trigger] sections@[m], ss[m]),
            lessons_built(sections_lessons(sections@), sections_inputs(ss.take(j as int), path_slug@, cs, path_url@, cu), sources@.subrange(0, k as int)),
            all_unlinked(sections_lessons(sections@)),
        decreases ss.len() - j,
    {
        let sm = &cm.sections[j];
        let n = sm.lessons.len();
        proof {
            assert(ss =~= ss.take(j + 1) + ss.skip(j + 1));
            lemma_sections_inputs_concat(ss.take(j + 1), ss.skip(j + 1), path_slug@, cs, path_url@, cu);
            assert(ss.take(j + 1).drop_last() =~= ss.take(j as int));
            assert(ss.take(j + 1).last() == ss[j as int]);
            assert(sections_inputs(ss.take(j + 1), path_slug@, cs, path_url@, cu)
                == sections_inputs(ss.take(j as int), path_slug@, cs, path_url@, cu) + section_inputs(ss[j as int], path_slug@, cs, path_url@, cu));
            assert(section_inputs(ss[j as int], path_slug@, cs, path_url@, cu).len() == n);
            assert(sm.lessons@.len() <= u32::MAX);
            assert(sections_inputs(ss, path_slug@, cs, path_url@, cu).len()
                == sections_inputs(ss.take(j + 1), path_slug@, cs, path_url@, cu).len() + sections_inputs(ss.skip(j + 1), path_slug@, cs, path_url@, cu).len());
            assert(k + n <= sources@.len());
        }
        let sub = &sources[k..k + n];
        assert(sub@ == sources@.subrange(k as int, (k + n) as int));
        assert(*sm == ss[j as int]);
        let sec = parse_section(sm, path_slug, course_slug.as_str(), course_url.as_str(), path_url, sub);
        assert(lessons_built(sec.lessons@, section_inputs(*sm, path_slug@, course_slug@, path_url@, course_url@), sub@));
        assert(course_slug@ == cs);
        assert(course_url@ == cu);
        assert(lessons_built(sec.lessons@, section_inputs(ss[j as int], path_slug@, cs, path_url@, cu), sources@.subrange(k as int, (k + n) as int)));
        let ghost before = sections@;
        sections.push(sec);
        proof {
            assert(sections@.drop_last() =~= before);
            assert(sources@.subrange(0, (k + n) as int) =~= sources@.subrange(0, k as int) + sources@.subrange(k as int, (k + n) as int));
            lemma_lessons_built_concat(
                sections_lessons(before), sections_inputs(ss.take(j as int), path_slug@, cs, path_url@, cu), sources@.subrange(0, k as int),
                sec.lessons@, section_inputs(ss[j as int], path_slug@, cs, path_url@, cu), sources@.subrange(k as int, (k + n) as int),
            );
            lemma_all_unlinked_concat(sections_lessons(before), sec.lessons@);
        }
        k = k + n;
        j = j + 1;
    }
    proof {
        assert(ss.take(ss.len() as int) =~= ss);
        assert(sources@.subrange(0, k as int) =~= sources@);
    }
    let badge_uri = match &cm.badge_uri {
        Some(b) => Some(b.clone()),
        None => None,
    };
    Course {
        slug: course_slug,
        title: cm.title.clone(),
        description: cm.description.clone(),
        position: cm.position,
        url: course_url,
        badge_uri,
        sections,
    }
}


/// Builds a path from its manifest and the sources of its lessons in
/// manifest order: slug from the title, URL `/<slug>/`.
pub fn parse_path(pm: &PathManifest, sources: &[LessonSource]) -> (res: Path)
    requires
        sources@.len() == path_inputs(*pm).len(),
        path_positions_fit(*pm),
    ensures
        path_fields(res, *pm),
        lessons_built(path_lessons(res), path_inputs(*pm), sources@),
        all_unlinked(path_lessons(res)),
{
    let path_slug = slugify(pm.title.as_str());
    let mut path_url = concat2("/", path_slug.as_str());
    path_url.append("/");
    let ghost cms = pm.courses@;
    let ghost ps = path_slug@;
    let ghost pu = path_url@;
    let mut courses: Vec<Course> = Vec::new();
    let total = sources.len();
    let mut k: usize = 0;
    let mut j: usize = 0;
    proof {
        assert(cms.take(0) =~= Seq::<CourseManifest>::empty());
        assert(sources@.subrange(0, 0) =~= Seq::<LessonSource>::empty());
    }
    while j < pm.courses.len()
        invariant
            j <= cms.len(),
            cms == pm.courses@,
            path_positions_fit(*pm),
            ps == path_slug@,
            pu == path_url@,
            ps == slug_of(pm.title@),
            pu == path_url_for(ps),
            total == sources@.len(),
            sources@.len() == courses_inputs(cms, ps, pu).len(),
            k == courses_inputs(cms.take(j as int), ps, pu).len(),
            k <= sources@.len(),
            courses@.len() == j,
            forall|m: int| 0 <= m < j ==> course_fields(#[trigger] courses@[m], cms[m], pu),
            lessons_built(courses_lessons(courses@), courses_inputs(cms.take(j as int), ps, pu), sources@.subrange(0, k as int)),
            all_unlinked(courses_lessons(courses@)),
        decreases cms.len() - j,
    {
        let cm = &pm.courses[j];
        proof {
            assert(cms =~= cms.take(j + 1) + cms.skip(j + 1));
            lemma_courses_inputs_concat(cms.take(j + 1), cms.skip(j + 1), ps, pu);
            lemma_sections_inputs_len(cm.sections@, ps, slug_of(cm.title@), pu, course_url_for(pu, cm.title@));
        }
        let n = course_lesson_count(cm);
        proof {
            assert(cms =~= cms.take(j + 1) + cms.skip(j + 1));
            lemma_courses_inputs_concat(cms.take(j + 1), cms.skip(j + 1), ps, pu);
            assert(cms.take(j + 1).drop_last() =~= cms.take(j as int));
            assert(cms.take(j + 1).last() == cms[j as int]);
            assert(courses_inputs(cms.take(j + 1), ps, pu) == courses_inputs(cms.take(j as int), ps, pu) + course_inputs(cms[j as int], ps, pu));
            assert(*cm == cms[j as int]);
            assert(k + n <= sources@.len());
        }
        let sub = &sources[k..k + n];
        let c = parse_course(cm, path_slug.as_str(), path_url.as_str(), sub);
        let ghost before = courses@;
        courses.push(c);
        proof {
            assert(courses@.drop_last() =~= before);
            assert(sources@.subrange(0, (k + n) as int) =~= sources@.subrange(0, k as int) + sources@.subrange(k as int, (k + n) as int));
            lemma_lessons_built_concat(
                courses_lessons(before), courses_inputs(cms.take(j as int), ps, pu), sources@.subrange(0, k as int),
                course_lessons(c), course_inputs(cms[j as int], ps, pu), sources@.subrange(k as int, (k + n) as int),
            );
            lemma_all_unlinked_concat(courses_lessons(before), course_lessons(c));
        }
        k = k + n;
        j = j + 1;
    }
    proof {
        assert(cms.take(cms.len() as int) =~= cms);
        assert(sources@.subrange(0, k as int) =~= sources@);
    }
    Path {
        slug: path_slug,
        title: pm.title.clone(),
        description: pm.description.clone(),
        position: pm.position,
        url: path_url,
        courses,
    }
}

/// How many lessons a sequence of section manifests lists.
pub open spec fn sections_lesson_count(ss: Seq<SectionManifest>) -> nat
    decreases ss.len(),
{
    if ss.len() == 0 {
        0
    } else {
        sections_lesson_count(ss.drop_last()) + ss.last().lessons@.len()
    }
}

proof fn lemma_sections_inputs_len(ss: Seq<SectionManifest>, ps: Seq<char>, cs: Seq<char>, pu: Seq<char>, cu: Seq<char>)
    ensures
        sections_inputs(ss, ps, cs, pu, cu).len() == sections_lesson_count(ss),
    decreases ss.len(),
{
    if ss.len() > 0 {
        lemma_sections_inputs_len(ss.drop_last(), ps, cs, pu, cu);
    }
}

/// How many lessons a course manifest lists.
fn course_lesson_count(cm: &CourseManifest) -> (res: usize)
    requires
        sections_lesson_count(cm.sections@) <= usize::MAX,
    ensures
        res == sections_lesson_count(cm.sections@),
{
    let ghost ss = cm.sections@;
    let mut total: usize = 0;
    let mut j: usize = 0;
    proof { assert(ss.take(0) =~= Seq::<SectionManifest>::empty()); }
    while j < cm.sections.len()
        invariant
            ss == cm.sections@,
            j <= ss.len(),
            sections_lesson_count(ss) <= usize::MAX,
            total == sections_lesson_count(ss.take(j as int)),
        decreases ss.len() - j,
    {
        proof {
            assert(ss.take(j + 1).drop_last() =~= ss.take(j as int));
            lemma_count_prefix_le(ss, j + 1);
        }
        total = total + cm.sections[j].lessons.len();
        j = j + 1;
    }
    proof { assert(ss.take(ss.len() as int) =~= ss); }
    total
}

proof fn lemma_count_prefix_le(ss: Seq<SectionManifest>, i: int)
    requires
        0 <= i <= ss.len(),
    ensures
        sections_lesson_count(ss.take(i)) <= sections_lesson_count(ss),
    decreases ss.len(),
{
    if i < ss.len() {
        assert(ss.drop_last().take(i) =~= ss.take(i));
        lemma_count_prefix_le(ss.drop_last(), i);
    } else {
        assert(ss.take(i) =~= ss);
    }
}


fn copy_theme(t: &Theme) -> (res: Theme)
    ensures
        res == *t,
{
    Theme {
        bg: t.bg.clone(),
        text: t.text.clone(),
        accent: t.accent.clone(),
        border: t.border.clone(),
        accent_text: t.accent_text.clone(),
    }
}

/// The theme of the first preset named `name`, if any.
pub open spec fn preset_named(presets: Seq<(String, Theme)>, name: Seq<char>) -> Option<Theme>
    decreases presets.len(),
{
    if presets.len() == 0 {
        None
    } else if presets[0].0@ == name {
        Some(presets[0].1)
    } else {
        preset_named(presets.drop_first(), name)
    }
}

/// The theme a root manifest asks for: its custom colours if it has them,
/// else its named preset if the presets hold it; `None` means the built-in
/// Biophilic preset.
pub open spec fn chosen_theme(m: CurriculumManifest, presets: Option<Seq<(String, Theme)>>) -> Option<Theme> {
    match m.custom_colors {
        Some(t) => Some(t),
        None => match (m.theme_preset, presets) {
            (Some(name), Some(ps)) => preset_named(ps, name@),
            _ => None,
        },
    }
}

/// `t` is the Biophilic preset.
pub open spec fn is_biophilic(t: Theme) -> bool {
    &&& t.bg@ == "#f9fbf9"@
    &&& t.text@ == "#1a2e1a"@
    &&& t.accent@ == "#4a7c44"@
    &&& t.border@ == "#d1dbd1"@
    &&& t.accent_text@ == "#ffffff"@
}

fn find_preset(presets: &Vec<(String, Theme)>, name: &str) -> (res: Option<Theme>)
    ensures
        res == preset_named(presets@, name@),
{
    let mut i: usize = 0;
    proof { assert(presets@.skip(0) =~= presets@); }
    while i < presets.len()
        invariant
            i <= presets@.len(),
            preset_named(presets@, name@) == preset_named(presets@.skip(i as int), name@),
        decreases presets@.len() - i,
    {
        proof { assert(presets@.skip(i as int).drop_first() =~= presets@.skip(i + 1)); }
        if *presets[i].0.as_str() == *name {
            return Some(copy_theme(&presets[i].1));
        }
        i = i + 1;
    }
    None
}

/// Resolves the site theme of the older layout: the manifest's custom
/// colours first, then its named preset looked up in `presets` (the
/// contents of `themes.yml`, when it exists and parses), then the built-in
/// Biophilic preset.
pub fn resolve_theme(manifest: &CurriculumManifest, presets: Option<&Vec<(String, Theme)>>) -> (res: Theme)
    ensures
        match chosen_theme(*manifest, match presets { Some(p) => Some(p@), None => None }) {
            Some(t) => res == t,
            None => is_biophilic(res),
        },
{
    if let Some(custom) = &manifest.custom_colors {
        return copy_theme(custom);
    }
    if let Some(preset_name) = &manifest.theme_preset {
        if let Some(ps) = presets {
            if let Some(theme) = find_preset(ps, preset_name.as_str()) {
                return theme;
            }
        }
    }
    Theme::biophilic()
}

/// Resolves the site theme of the nested layout: its custom colours, else
/// the built-in Biophilic preset (named presets are not looked up here).
pub fn resolve_theme_nested(manifest: &NestedCurriculumManifest) -> (res: Theme)
    ensures
        match manifest.custom_colors {
            Some(t) => res == t,
            None => is_biophilic(res),
        },
{
    if let Some(custom) = &manifest.custom_colors {
        return copy_theme(custom);
    }
    Theme::biophilic()
}

/// How many characters of plain text a search entry keeps.
pub open spec fn excerpt_len() -> nat {
    200
}

/// The search entry of a lesson of a course in a path: its display title
/// and URL, the path and course titles, and the first 200 characters of its
/// HTML with the tags removed.
pub open spec fn search_entry_for(path_title: Seq<char>, course_title: Seq<char>, l: Lesson) -> SearchEntryView {
    SearchEntryView {
        title: l.display_title@,
        url: l.url@,
        path: path_title,
        course: course_title,
        excerpt: prefix_chars(
            tags_stripped(match l.html_content { Some(h) => h@, None => Seq::empty() }),
            excerpt_len(),
        ),
    }
}

/// The entries of the lessons of a sequence of courses in one path.
pub open spec fn courses_search_entries(path_title: Seq<char>, cs: Seq<Course>) -> Seq<SearchEntryView>
    decreases cs.len(),
{
    if cs.len() == 0 {
        Seq::empty()
    } else {
        courses_search_entries(path_title, cs.drop_last())
            + course_lessons(cs.last()).map_values(|l: Lesson| search_entry_for(path_title, cs.last().title@, l))
    }
}

/// The search index of a sequence of paths: one entry per lesson, in the
/// flat lesson order.
pub open spec fn search_entries(ps: Seq<Path>) -> Seq<SearchEntryView>
    decreases ps.len(),
{
    if ps.len() == 0 {
        Seq::empty()
    } else {
        search_entries(ps.drop_last()) + courses_search_entries(ps.last().title@, ps.last().courses@)
    }
}

/// The entries as plain values.
pub open spec fn entries_view(es: Seq<SearchEntry>) -> Seq<SearchEntryView> {
    es.map_values(|e: SearchEntry| e@)
}

fn search_entry(path_title: &String, course_title: &String, lesson: &Lesson) -> (res: SearchEntry)
    ensures
        res@ == search_entry_for(path_title@, course_title@, *lesson),
{
    let stripped = match &lesson.html_content {
        Some(h) => strip_html_tags(h.as_str()),
        None => String::new(),
    };
    let excerpt = take_chars(stripped.as_str(), 200);
    SearchEntry {
        title: lesson.display_title.clone(),
        url: lesson.url.clone(),
        path: path_title.clone(),
        course: course_title.clone(),
        excerpt,
    }
}

/// Builds the search index: one entry per lesson, in the flat lesson order.
pub fn build_search_index(paths: &Vec<Path>) -> (res: Vec<SearchEntry>)
    ensures
        entries_view(res@) == search_entries(paths@),
{
    let mut entries: Vec<SearchEntry> = Vec::new();
    let mut i: usize = 0;
    proof { assert(entries_view(entries@) =~= search_entries(paths@.take(0))); }
    while i < paths.len()
        invariant
            i <= paths@.len(),
            entries_view(entries@) == search_entries(paths@.take(i as int)),
        decreases paths@.len() - i,
    {
        let path = &paths[i];
        let ghost base = entries_view(entries@);
        let mut j: usize = 0;
        proof { assert(base + courses_search_entries(path.title@, path.courses@.take(0)) =~= base); }
        while j < path.courses.len()
            invariant
                j <= path.courses@.len(),
                entries_view(entries@) == base + courses_search_entries(path.title@, path.courses@.take(j as int)),
            decreases path.courses@.len() - j,
        {
            let course = &path.courses[j];
            let lessons = course.all_lessons();
            let ghost mid = entries_view(entries@);
            let ghost ls = course_lessons(*course);
            let mut m: usize = 0;
            proof { assert(mid + ls.take(0).map_values(|l: Lesson| search_entry_for(path.title@, course.title@, l)) =~= mid); }
            while m < lessons.len()
                invariant
                    m <= lessons@.len(),
                    ls == course_lessons(*course),
                    ls.len() == lessons@.len(),
                    forall|q: int| 0 <= q < ls.len() ==> *lessons@[q] == #[trigger] ls[q],
                    entries_view(entries@) == mid + ls.take(m as int).map_values(|l: Lesson| search_entry_for(path.title@, course.title@, l)),
                decreases lessons@.len() - m,
            {
                let e = search_entry(&path.title, &course.title, lessons[m]);
                let ghost before = entries@;
                entries.push(e);
                proof {
                    assert(*lessons@[m as int] == ls[m as int]);
                    assert(entries_view(entries@) =~= entries_view(before).push(e@));
                    assert(ls.take(m + 1).map_values(|l: Lesson| search_entry_for(path.title@, course.title@, l))
                        =~= ls.take(m as int).map_values(|l: Lesson| search_entry_for(path.title@, course.title@, l)).push(search_entry_for(path.title@, course.title@, ls[m as int])));
                }
                m = m + 1;
            }
            proof {
                assert(ls.take(ls.len() as int) =~= ls);
                assert(path.courses@.take(j + 1).drop_last() =~= path.courses@.take(j as int));
                assert(path.courses@.take(j + 1).last() == *course);
            }
            j = j + 1;
        }
        proof {
            assert(path.courses@.take(path.courses@.len() as int) =~= path.courses@);
            assert(paths@.take(i + 1).drop_last() =~= paths@.take(i as int));
        }
        i = i + 1;
    }
    proof { assert(paths@.take(paths@.len() as int) =~= paths@); }
    entries
}


/// Each path of `ps` is built from the path manifest at the same place.
pub open spec fn paths_fields(ps: Seq<Path>, pms: Seq<PathManifest>) -> bool {
    &&& ps.len() == pms.len()
    &&& forall|i: int| 0 <= i < ps.len() ==> path_fields(#[trigger] ps[i], pms[i])
}

/// Every path manifest has positions that fit.
pub open spec fn paths_positions_fit(pms: Seq<PathManifest>) -> bool {
    forall|i: int| 0 <= i < pms.len() ==> path_positions_fit(#[trigger] pms[i])
}

/// How many lessons a sequence of course manifests lists.
pub open spec fn courses_lesson_count(cs: Seq<CourseManifest>) -> nat
    decreases cs.len(),
{
    if cs.len() == 0 {
        0
    } else {
        courses_lesson_count(cs.drop_last()) + sections_lesson_count(cs.last().sections@)
    }
}

proof fn lemma_courses_inputs_len(cs: Seq<CourseManifest>, ps: Seq<char>, pu: Seq<char>)
    ensures
        courses_inputs(cs, ps, pu).len() == courses_lesson_count(cs),
    decreases cs.len(),
{
    if cs.len() > 0 {
        lemma_courses_inputs_len(cs.drop_last(), ps, pu);
        let c = cs.last();
        lemma_sections_inputs_len(c.sections@, ps, slug_of(c.title@), pu, course_url_for(pu, c.title@));
    }
}

proof fn lemma_courses_count_prefix_le(cs: Seq<CourseManifest>, i: int)
    requires
        0 <= i <= cs.len(),
    ensures
        courses_lesson_count(cs.take(i)) <= courses_lesson_count(cs),
    decreases cs.len(),
{
    if i < cs.len() {
        assert(cs.drop_last().take(i) =~= cs.take(i));
        lemma_courses_count_prefix_le(cs.drop_last(), i);
    } else {
        assert(cs.take(i) =~= cs);
    }
}

proof fn lemma_course_count_le(cs: Seq<CourseManifest>, j: int)
    requires
        0 <= j < cs.len(),
    ensures
        sections_lesson_count(cs[j].sections@) <= courses_lesson_count(cs),
{
    lemma_courses_count_prefix_le(cs, j + 1);
    assert(cs.take(j + 1).drop_last() =~= cs.take(j));
    assert(cs.take(j + 1).last() == cs[j]);
}

/// How many lessons a path manifest lists.
fn path_lesson_count(pm: &PathManifest) -> (res: usize)
    requires
        courses_lesson_count(pm.courses@) <= usize::MAX,
    ensures
        res == courses_lesson_count(pm.courses@),
{
    let ghost cs = pm.courses@;
    let mut total: usize = 0;
    let mut j: usize = 0;
    proof { assert(cs.take(0) =~= Seq::<CourseManifest>::empty()); }
    while j < pm.courses.len()
        invariant
            cs == pm.courses@,
            j <= cs.len(),
            courses_lesson_count(cs) <= usize::MAX,
            total == courses_lesson_count(cs.take(j as int)),
        decreases cs.len() - j,
    {
        proof {
            assert(cs.take(j + 1).drop_last() =~= cs.take(j as int));
            lemma_courses_count_prefix_le(cs, j + 1);
            lemma_course_count_le(cs, j as int);
        }
        let n = course_lesson_count(&pm.courses[j]);
        total = total + n;
        j = j + 1;
    }
    proof { assert(cs.take(cs.len() as int) =~= cs); }
    total
}

/// Builds the paths of the older layout from their manifests and the
/// sources of all lessons in manifest order.
fn build_paths(pms: &Vec<PathManifest>, sources: &Vec<LessonSource>) -> (res: Vec<Path>)
    requires
        sources@.len() == paths_inputs(pms@).len(),
        paths_positions_fit(pms@),
    ensures
        paths_fields(res@, pms@),
        lessons_built(paths_lessons(res@), paths_inputs(pms@), sources@),
{
    let ghost ms = pms@;
    let mut paths: Vec<Path> = Vec::new();
    let total = sources.len();
    let mut k: usize = 0;
    let mut i: usize = 0;
    proof {
        assert(ms.take(0) =~= Seq::<PathManifest>::empty());
        assert(sources@.subrange(0, 0) =~= Seq::<LessonSource>::empty());
    }
    while i < pms.len()
        invariant
            i <= ms.len(),
            ms == pms@,
            paths_positions_fit(ms),
            total == sources@.len(),
            sources@.len() == paths_inputs(ms).len(),
            k == paths_inputs(ms.take(i as int)).len(),
            k <= sources@.len(),
            paths@.len() == i,
            forall|m: int| 0 <= m < i ==> path_fields(#[trigger] paths@[m], ms[m]),
            lessons_built(paths_lessons(paths@), paths_inputs(ms.take(i as int)), sources@.subrange(0, k as int)),
        decreases ms.len() - i,
    {
        let pm = &pms[i];
        proof {
            assert(ms =~= ms.take(i + 1) + ms.skip(i + 1));
            lemma_paths_inputs_concat(ms.take(i + 1), ms.skip(i + 1));
            assert(ms.take(i + 1).drop_last() =~= ms.take(i as int));
            assert(ms.take(i + 1).last() == ms[i as int]);
            assert(*pm == ms[i as int]);
            lemma_courses_inputs_len(pm.courses@, slug_of(pm.title@), path_url_for(slug_of(pm.title@)));
            assert(paths_inputs(ms.take(i + 1)) == paths_inputs(ms.take(i as int)) + path_inputs(ms[i as int]));
        }
        let n = path_lesson_count(pm);
        proof { assert(k + n <= sources@.len()); }
        let sub = &sources[k..k + n];
        let p = parse_path(pm, sub);
        let ghost before = paths@;
        paths.push(p);
        proof {
            assert(paths@.drop_last() =~= before);
            assert(sources@.subrange(0, (k + n) as int) =~= sources@.subrange(0, k as int) + sources@.subrange(k as int, (k + n) as int));
            lemma_lessons_built_concat(
                paths_lessons(before), paths_inputs(ms.take(i as int)), sources@.subrange(0, k as int),
                path_lessons(p), path_inputs(ms[i as int]), sources@.subrange(k as int, (k + n) as int),
            );
        }
        k = k + n;
        i = i + 1;
    }
    proof {
        assert(ms.take(ms.len() as int) =~= ms);
        assert(sources@.subrange(0, k as int) =~= sources@);
    }
    paths
}

proof fn lemma_fields_survive_navigation(pre: Seq<Path>, post: Seq<Path>, pms: Seq<PathManifest>)
    requires
        navigation_resolved(pre, post),
        paths_fields(pre, pms),
    ensures
        paths_fields(post, pms),
{
    assert forall|i: int| 0 <= i < post.len() implies path_fields(#[trigger] post[i], pms[i]) by {
        let a = pre[i];
        let b = post[i];
        assert(path_same_shape(a, b));
        assert(path_fields(a, pms[i]));
        assert forall|j: int| 0 <= j < b.courses@.len() implies course_fields(#[trigger] b.courses@[j], pms[i].courses@[j], b.url@) by {
            let ca = a.courses@[j];
            let cb = b.courses@[j];
            assert(course_same_shape(ca, cb));
            assert(course_fields(ca, pms[i].courses@[j], a.url@));
            assert forall|q: int| 0 <= q < cb.sections@.len() implies section_fields(#[trigger] cb.sections@[q], pms[i].courses@[j].sections@[q]) by {
                assert(section_same_shape(ca.sections@[q], cb.sections@[q]));
                assert(section_fields(ca.sections@[q], pms[i].courses@[j].sections@[q]));
            }
        }
    }
}

proof fn lemma_built_survives_navigation(pre: Seq<Path>, post: Seq<Path>, inputs: Seq<LessonInput>, sources: Seq<LessonSource>)
    requires
        navigation_resolved(pre, post),
        lessons_built(paths_lessons(pre), inputs, sources),
    ensures
        lessons_built(paths_lessons(post), inputs, sources),
{
    let a = paths_lessons(pre);
    let b = paths_lessons(post);
    lemma_links_follow_position_order(pre, post);
    assert forall|m: int| 0 <= m < b.len() implies lesson_built(#[trigger] b[m], inputs[m], sources[m]) by {
        assert(same_but_links(b[m], a[m]));
        assert(lesson_built(a[m], inputs[m], sources[m]));
    }
}

/// Builds the curriculum of the older layout: the root manifest, the
/// manifests of its paths in order, and the sources of all lessons in
/// manifest order. Navigation is resolved across all lessons, the search
/// index is built, and the theme is resolved with `presets` (the contents
/// of `themes.yml`, if it exists and parses).
pub fn parse_old_format(
    root_manifest: CurriculumManifest,
    path_manifests: &Vec<PathManifest>,
    sources: &Vec<LessonSource>,
    presets: Option<&Vec<(String, Theme)>>,
) -> (res: (Curriculum, Vec<SearchEntry>))
    requires
        sources@.len() == paths_inputs(path_manifests@).len(),
        paths_positions_fit(path_manifests@),
    ensures
        res.0.title@ == root_manifest.title@,
        res.0.description@ == root_manifest.description@,
        match chosen_theme(root_manifest, match presets { Some(p) => Some(p@), None => None }) {
            Some(t) => res.0.theme == t,
            None => is_biophilic(res.0.theme),
        },
        paths_fields(res.0.paths@, path_manifests@),
        lessons_built(paths_lessons(res.0.paths@), paths_inputs(path_manifests@), sources@),
        links_follow_order(res.0.paths@),
        entries_view(res.1@) == search_entries(res.0.paths@),
{
    let mut paths = build_paths(path_manifests, sources);
    let ghost pre = paths@;
    resolve_all(&mut paths);
    proof {
        lemma_fields_survive_navigation(pre, paths@, path_manifests@);
        lemma_built_survives_navigation(pre, paths@, paths_inputs(path_manifests@), sources@);
        lemma_links_follow_position_order(pre, paths@);
    }
    let search_entries = build_search_index(&paths);
    let theme = resolve_theme(&root_manifest, presets);
    let CurriculumManifest { title, description, paths: _, custom_colors: _, theme_preset: _ } = root_manifest;
    let curriculum = Curriculum { title, description, theme, paths };
    (curriculum, search_entries)
}


/// Whether a lesson of the nested layout is a project.
pub open spec fn value_is_project(v: NestedLessonValue) -> bool {
    match v {
        NestedLessonValue::File(_) => false,
        NestedLessonValue::WithMeta { is_project, .. } => is_project,
    }
}

/// The URL of a course of the nested layout: `/<path>/<course>/`.
pub open spec fn nested_course_url(path_slug: Seq<char>, course_slug: Seq<char>) -> Seq<char> {
    "/"@ + path_slug + "/"@ + course_slug + "/"@
}

/// The lesson inputs of a section of the nested layout: title from the
/// key, no description, positions from 1.
pub open spec fn nested_section_inputs(sd: NestedSectionData, path_slug: Seq<char>, course_slug: Seq<char>) -> Seq<LessonInput> {
    Seq::new(sd.lessons@.len(), |i: int| LessonInput {
        title: sd.lessons@[i].0@,
        description: Seq::empty(),
        is_project: value_is_project(sd.lessons@[i].1),
        position: (i + 1) as u32,
        path_slug,
        course_slug,
        path_url: path_url_for(path_slug),
        course_url: nested_course_url(path_slug, course_slug),
    })
}

/// The lesson inputs of a sequence of sections of the nested layout.
pub open spec fn nested_sections_inputs(ss: Seq<NestedSectionData>, path_slug: Seq<char>, course_slug: Seq<char>) -> Seq<LessonInput>
    decreases ss.len(),
{
    if ss.len() == 0 {
        Seq::empty()
    } else {
        nested_sections_inputs(ss.drop_last(), path_slug, course_slug) + nested_section_inputs(ss.last(), path_slug, course_slug)
    }
}

/// The courses of a list of course maps, map after map and key after key,
/// each with its position: the index of its map, counted from 1.
pub open spec fn course_entries(maps: Seq<Vec<(String, NestedCourseData)>>) -> Seq<(String, NestedCourseData, u32)>
    decreases maps.len(),
{
    if maps.len() == 0 {
        Seq::empty()
    } else {
        course_entries(maps.drop_last())
            + maps.last()@.map_values(|e: (String, NestedCourseData)| (e.0, e.1, maps.len() as u32))
    }
}

/// The lesson inputs of a sequence of course entries of one path.
pub open spec fn course_entries_inputs(es: Seq<(String, NestedCourseData, u32)>, path_slug: Seq<char>) -> Seq<LessonInput>
    decreases es.len(),
{
    if es.len() == 0 {
        Seq::empty()
    } else {
        course_entries_inputs(es.drop_last(), path_slug) + nested_sections_inputs(es.last().1.sections@, path_slug, es.last().0@)
    }
}

/// The paths of the navigation list, map after map and key after key, each
/// with its position: the index of its map, counted from 1.
pub open spec fn path_entries(nav: Seq<Vec<(String, NestedPathData)>>) -> Seq<(String, NestedPathData, u32)>
    decreases nav.len(),
{
    if nav.len() == 0 {
        Seq::empty()
    } else {
        path_entries(nav.drop_last())
            + nav.last()@.map_values(|e: (String, NestedPathData)| (e.0, e.1, nav.len() as u32))
    }
}

/// The lesson inputs of one path of the nested layout.
pub open spec fn nested_path_inputs(e: (String, NestedPathData, u32)) -> Seq<LessonInput> {
    course_entries_inputs(course_entries(e.1.courses@), e.0@)
}

/// The lesson inputs of a sequence of path entries.
pub open spec fn path_entries_inputs(es: Seq<(String, NestedPathData, u32)>) -> Seq<LessonInput>
    decreases es.len(),
{
    if es.len() == 0 {
        Seq::empty()
    } else {
        path_entries_inputs(es.drop_last()) + nested_path_inputs(es.last())
    }
}

/// The manifest order of all lessons of a nested manifest.
pub open spec fn nested_inputs(m: NestedCurriculumManifest) -> Seq<LessonInput> {
    path_entries_inputs(path_entries(m.nav@))
}

/// A section built from its nested-layout data at `position`.
pub open spec fn nested_section_fields(s: Section, sd: NestedSectionData, position: u32) -> bool {
    &&& s.title@ == sd.title@
    &&& s.description@ == sd.description@
    &&& s.position == position
    &&& s.lessons@.len() == sd.lessons@.len()
}

/// A course built from its nested-layout entry under a path.
pub open spec fn nested_course_fields(c: Course, e: (String, NestedCourseData, u32), path_slug: Seq<char>) -> bool {
    &&& c.slug@ == e.0@
    &&& c.title@ == e.1.title@
    &&& c.description@ == e.1.description@
    &&& c.position == e.2
    &&& c.url@ == nested_course_url(path_slug, e.0@)
    &&& c.badge_uri is None
    &&& c.sections@.len() == e.1.sections@.len()
    &&& forall|q: int| 0 <= q < c.sections@.len()
        ==> nested_section_fields(#[trigger] c.sections@[q], e.1.sections@[q], (q + 1) as u32)
}

/// A path built from its nested-layout entry.
pub open spec fn nested_path_fields(p: Path, e: (String, NestedPathData, u32)) -> bool {
    &&& p.slug@ == e.0@
    &&& p.title@ == e.1.title@
    &&& p.description@ == e.1.description@
    &&& p.position == e.2
    &&& p.url@ == path_url_for(e.0@)
    &&& p.courses@.len() == course_entries(e.1.courses@).len()
    &&& forall|j: int| 0 <= j < p.courses@.len()
        ==> nested_course_fields(#[trigger] p.courses@[j], course_entries(e.1.courses@)[j], e.0@)
}

/// Each path of `ps` is built from the entry at the same place.
pub open spec fn nested_paths_fields(ps: Seq<Path>, es: Seq<(String, NestedPathData, u32)>) -> bool {
    &&& ps.len() == es.len()
    &&& forall|i: int| 0 <= i < ps.len() ==> nested_path_fields(#[trigger] ps[i], es[i])
}

proof fn lemma_nested_sections_inputs_concat(a: Seq<NestedSectionData>, b: Seq<NestedSectionData>, ps: Seq<char>, cs: Seq<char>)
    ensures
        nested_sections_inputs(a + b, ps, cs) == nested_sections_inputs(a, ps, cs) + nested_sections_inputs(b, ps, cs),
    decreases b.len(),
{
    if b.len() == 0 {
        assert(a + b =~= a);
        assert(nested_sections_inputs(a, ps, cs) + Seq::<LessonInput>::empty() =~= nested_sections_inputs(a, ps, cs));
    } else {
        lemma_nested_sections_inputs_concat(a, b.drop_last(), ps, cs);
        assert((a + b).drop_last() =~= a + b.drop_last());
        assert(nested_sections_inputs(a + b, ps, cs) =~= nested_sections_inputs(a, ps, cs) + nested_sections_inputs(b, ps, cs));
    }
}

proof fn lemma_course_entries_inputs_concat(a: Seq<(String, NestedCourseData, u32)>, b: Seq<(String, NestedCourseData, u32)>, ps: Seq<char>)
    ensures
        course_entries_inputs(a + b, ps) == course_entries_inputs(a, ps) + course_entries_inputs(b, ps),
    decreases b.len(),
{
    if b.len() == 0 {
        assert(a + b =~= a);
        assert(course_entries_inputs(a, ps) + Seq::<LessonInput>::empty() =~= course_entries_inputs(a, ps));
    } else {
        lemma_course_entries_inputs_concat(a, b.drop_last(), ps);
        assert((a + b).drop_last() =~= a + b.drop_last());
        assert(course_entries_inputs(a + b, ps) =~= course_entries_inputs(a, ps) + course_entries_inputs(b, ps));
    }
}

proof fn lemma_path_entries_inputs_concat(a: Seq<(String, NestedPathData, u32)>, b: Seq<(String, NestedPathData, u32)>)
    ensures
        path_entries_inputs(a + b) == path_entries_inputs(a) + path_entries_inputs(b),
    decreases b.len(),
{
    if b.len() == 0 {
        assert(a + b =~= a);
        assert(path_entries_inputs(a) + Seq::<LessonInput>::empty() =~= path_entries_inputs(a));
    } else {
        lemma_path_entries_inputs_concat(a, b.drop_last());
        assert((a + b).drop_last() =~= a + b.drop_last());
        assert(path_entries_inputs(a + b) =~= path_entries_inputs(a) + path_entries_inputs(b));
    }
}

fn concat3(a: &str, b: &str, c: &str) -> (res: String)
    ensures
        res@ == a@ + b@ + c@,
{
    let mut s = concat2(a, b);
    s.append(c);
    s
}

fn build_nested_section(
    sd: &NestedSectionData,
    position: u32,
    path_slug: &str,
    course_slug: &str,
    path_url: &str,
    course_url: &str,
    sources: &Vec<LessonSource>,
    k: &mut usize,
) -> (res: Section)
    requires
        *old(k) + nested_section_inputs(*sd, path_slug@, course_slug@).len() <= sources@.len(),
        path_url@ == path_url_for(path_slug@),
        course_url@ == nested_course_url(path_slug@, course_slug@),
    ensures
        *final(k) == *old(k) + nested_section_inputs(*sd, path_slug@, course_slug@).len(),
        nested_section_fields(res, *sd, position),
        lessons_built(res.lessons@, nested_section_inputs(*sd, path_slug@, course_slug@), sources@.subrange(*old(k) as int, *final(k) as int)),
{
    let ghost k0 = *k;
    let ghost ins = nested_section_inputs(*sd, path_slug@, course_slug@);
    let mut lessons: Vec<Lesson> = Vec::new();
    let mut i: usize = 0;
    let total = sources.len();
    proof { reveal_strlit(""); }
    while i < sd.lessons.len()
        invariant
            i <= sd.lessons@.len(),
            ins == nested_section_inputs(*sd, path_slug@, course_slug@),
            k0 + ins.len() <= sources@.len(),
            ins.len() == sd.lessons@.len(),
            total == sources@.len(),
            *k == k0 + i,
            path_url@ == path_url_for(path_slug@),
            course_url@ == nested_course_url(path_slug@, course_slug@),
            ""@ == Seq::<char>::empty(),
            lessons@.len() == i,
            forall|m: int| 0 <= m < i ==> lesson_built(#[trigger] lessons@[m], ins[m], sources@[k0 + m]),
        decreases sd.lessons@.len() - i,
    {
        let entry = &sd.lessons[i];
        let is_project = match &entry.1 {
            NestedLessonValue::File(_) => false,
            NestedLessonValue::WithMeta { file: _, is_project } => *is_project,
        };
        let pos: u32 = #[verifier::truncate] ((i + 1) as u32);
        let l = build_lesson(entry.0.as_str(), "", is_project, pos, path_slug, course_slug, path_url,
            course_url, &sources[*k]);
        proof {
            assert(ins[i as int].position == pos);
            assert(ins[i as int] == LessonInput {
                title: entry.0@,
                description: ""@,
                is_project,
                position: pos,
                path_slug: path_slug@,
                course_slug: course_slug@,
                path_url: path_url@,
                course_url: course_url@,
            });
        }
        lessons.push(l);
        *k = *k + 1;
        i = i + 1;
    }
    proof {
        let sub = sources@.subrange(k0 as int, *k as int);
        assert forall|m: int| 0 <= m < lessons@.len() implies lesson_built(#[trigger] lessons@[m], ins[m], sub[m]) by {
            assert(sub[m] == sources@[k0 + m]);
        }
    }
    Section { title: sd.title.clone(), description: sd.description.clone(), position, lessons }
}


fn build_nested_course(
    entry: &(String, NestedCourseData),
    position: u32,
    path_slug: &str,
    path_url: &str,
    sources: &Vec<LessonSource>,
    k: &mut usize,
) -> (res: Course)
    requires
        *old(k) + nested_sections_inputs(entry.1.sections@, path_slug@, entry.0@).len() <= sources@.len(),
        path_url@ == path_url_for(path_slug@),
    ensures
        *final(k) == *old(k) + nested_sections_inputs(entry.1.sections@, path_slug@, entry.0@).len(),
        nested_course_fields(res, (entry.0, entry.1, position), path_slug@),
        lessons_built(course_lessons(res), nested_sections_inputs(entry.1.sections@, path_slug@, entry.0@),
            sources@.subrange(*old(k) as int, *final(k) as int)),
{
    let course_slug = &entry.0;
    let cd = &entry.1;
    let course_url = concat3(path_url, course_slug.as_str(), "/");
    proof {
        reveal_strlit("/");
        assert(course_url@ =~= nested_course_url(path_slug@, course_slug@));
    }
    let ghost k0 = *k;
    let ghost ss = cd.sections@;
    let ghost ps = path_slug@;
    let ghost cs = course_slug@;
    let mut sections: Vec<Section> = Vec::new();
    let mut q: usize = 0;
    proof {
        assert(ss.take(0) =~= Seq::<NestedSectionData>::empty());
        assert(sources@.subrange(k0 as int, k0 as int) =~= Seq::<LessonSource>::empty());
    }
    while q < cd.sections.len()
        invariant
            q <= ss.len(),
            ss == cd.sections@,
            ps == path_slug@,
            cs == course_slug@,
            path_url@ == path_url_for(ps),
            course_url@ == nested_course_url(ps, cs),
            k0 + nested_sections_inputs(ss, ps, cs).len() <= sources@.len(),
            *k == k0 + nested_sections_inputs(ss.take(q as int), ps, cs).len(),
            sections@.len() == q,
            forall|m: int| 0 <= m < q ==> nested_section_fields(#[trigger] sections@[m], ss[m], (m + 1) as u32),
            lessons_built(sections_lessons(sections@), nested_sections_inputs(ss.take(q as int), ps, cs), sources@.subrange(k0 as int, *k as int)),
        decreases ss.len() - q,
    {
        let ghost kb = *k;
        proof {
            assert(ss =~= ss.take(q + 1) + ss.skip(q + 1));
            lemma_nested_sections_inputs_concat(ss.take(q + 1), ss.skip(q + 1), ps, cs);
            assert(ss.take(q + 1).drop_last() =~= ss.take(q as int));
            assert(ss.take(q + 1).last() == ss[q as int]);
        }
        let pos: u32 = #[verifier::truncate] ((q + 1) as u32);
        let sec = build_nested_section(&cd.sections[q], pos, path_slug, course_slug.as_str(), path_url, course_url.as_str(), sources, k);
        let ghost before = sections@;
        sections.push(sec);
        proof {
            assert(sections@.drop_last() =~= before);
            assert(sources@.subrange(k0 as int, *k as int) =~= sources@.subrange(k0 as int, kb as int) + sources@.subrange(kb as int, *k as int));
            lemma_lessons_built_concat(
                sections_lessons(before), nested_sections_inputs(ss.take(q as int), ps, cs), sources@.subrange(k0 as int, kb as int),
                sec.lessons@, nested_section_inputs(ss[q as int], ps, cs), sources@.subrange(kb as int, *k as int),
            );
        }
        q = q + 1;
    }
    proof { assert(ss.take(ss.len() as int) =~= ss); }
    Course {
        slug: course_slug.clone(),
        title: cd.title.clone(),
        description: cd.description.clone(),
        position,
        url: course_url,
        badge_uri: None,
        sections,
    }
}

proof fn lemma_course_entries_prefix(maps: Seq<Vec<(String, NestedCourseData)>>, n: int)
    requires
        0 <= n <= maps.len(),
    ensures
        course_entries(maps.take(n)).len() <= course_entries(maps).len(),
        course_entries(maps.take(n)) == course_entries(maps).take(course_entries(maps.take(n)).len() as int),
    decreases maps.len(),
{
    if n == maps.len() {
        assert(maps.take(n) =~= maps);
        assert(course_entries(maps).take(course_entries(maps).len() as int) =~= course_entries(maps));
    } else {
        assert(maps.drop_last().take(n) =~= maps.take(n));
        lemma_course_entries_prefix(maps.drop_last(), n);
        let a = course_entries(maps.take(n));
        let b = course_entries(maps.drop_last());
        assert(course_entries(maps).take(a.len() as int) =~= b.take(a.len() as int));
    }
}

proof fn lemma_course_entries_step(maps: Seq<Vec<(String, NestedCourseData)>>, mi: int)
    requires
        0 <= mi < maps.len(),
    ensures
        course_entries(maps.take(mi + 1)) == course_entries(maps.take(mi))
            + maps[mi]@.map_values(|e: (String, NestedCourseData)| (e.0, e.1, (mi + 1) as u32)),
{
    assert(maps.take(mi + 1).drop_last() =~= maps.take(mi));
    assert(maps.take(mi + 1).last() == maps[mi]);
}

#[verifier::rlimit(40)]
#[verifier::spinoff_prover]
fn build_nested_path(
    entry: &(String, NestedPathData),
    position: u32,
    sources: &Vec<LessonSource>,
    k: &mut usize,
) -> (res: Path)
    requires
        *old(k) + nested_path_inputs((entry.0, entry.1, position)).len() <= sources@.len(),
    ensures
        *final(k) == *old(k) + nested_path_inputs((entry.0, entry.1, position)).len(),
        nested_path_fields(res, (entry.0, entry.1, position)),
        lessons_built(path_lessons(res), nested_path_inputs((entry.0, entry.1, position)),
            sources@.subrange(*old(k) as int, *final(k) as int)),
{
    let path_slug = &entry.0;
    let pd = &entry.1;
    let path_url = concat3("/", path_slug.as_str(), "/");
    let ghost k0 = *k;
    let ghost ps = path_slug@;
    let ghost maps = pd.courses@;
    let ghost all = course_entries(maps);
    let mut courses: Vec<Course> = Vec::new();
    let mut mi: usize = 0;
    proof {
        assert(maps.take(0) =~= Seq::<Vec<(String, NestedCourseData)>>::empty());
        assert(sources@.subrange(k0 as int, k0 as int) =~= Seq::<LessonSource>::empty());
        assert(all.take(0) =~= Seq::<(String, NestedCourseData, u32)>::empty());
    }
    while mi < pd.courses.len()
        invariant
            mi <= maps.len(),
            maps == pd.courses@,
            all == course_entries(maps),
            ps == path_slug@,
            path_url@ == path_url_for(ps),
            k0 + course_entries_inputs(all, ps).len() <= sources@.len(),
            courses@.len() == course_entries(maps.take(mi as int)).len(),
            courses@.len() <= all.len(),
            all.take(courses@.len() as int) == course_entries(maps.take(mi as int)),
            *k == k0 + course_entries_inputs(all.take(courses@.len() as int), ps).len(),
            forall|m: int| 0 <= m < courses@.len() ==> nested_course_fields(#[trigger] courses@[m], all[m], ps),
            lessons_built(courses_lessons(courses@), course_entries_inputs(all.take(courses@.len() as int), ps), sources@.subrange(k0 as int, *k as int)),
        decreases maps.len() - mi,
    {
        let map = &pd.courses[mi];
        let mpos: u32 = #[verifier::truncate] ((mi + 1) as u32);
        let ghost t0 = courses@.len() as int;
        proof {
            lemma_course_entries_step(maps, mi as int);
            lemma_course_entries_prefix(maps, mi + 1);
        }
        let mut ei: usize = 0;
        while ei < map.len()
            invariant
                ei <= map@.len(),
                *map == maps[mi as int],
                mi < maps.len(),
                maps == pd.courses@,
                all == course_entries(maps),
                ps == path_slug@,
                path_url@ == path_url_for(ps),
                mpos == (mi + 1) as u32,
                t0 == course_entries(maps.take(mi as int)).len(),
                course_entries(maps.take(mi + 1)) == course_entries(maps.take(mi as int))
                    + maps[mi as int]@.map_values(|e: (String, NestedCourseData)| (e.0, e.1, (mi + 1) as u32)),
                course_entries(maps.take(mi + 1)) == all.take(course_entries(maps.take(mi + 1)).len() as int),
                course_entries(maps.take(mi + 1)).len() <= all.len(),
                k0 + course_entries_inputs(all, ps).len() <= sources@.len(),
                courses@.len() == t0 + ei,
                *k == k0 + course_entries_inputs(all.take(courses@.len() as int), ps).len(),
                forall|m: int| 0 <= m < courses@.len() ==> nested_course_fields(#[trigger] courses@[m], all[m], ps),
                lessons_built(courses_lessons(courses@), course_entries_inputs(all.take(courses@.len() as int), ps), sources@.subrange(k0 as int, *k as int)),
            decreases map@.len() - ei,
        {
            let ghost t = courses@.len() as int;
            let ghost kb = *k;
            let ce = &map[ei];
            proof {
                assert(all[t] == course_entries(maps.take(mi + 1))[t]);
                assert(all[t] == (ce.0, ce.1, mpos));
                assert(all =~= all.take(t + 1) + all.skip(t + 1));
                lemma_course_entries_inputs_concat(all.take(t + 1), all.skip(t + 1), ps);
                assert(all.take(t + 1).drop_last() =~= all.take(t));
                assert(all.take(t + 1).last() == all[t]);
            }
            let c = build_nested_course(ce, mpos, path_slug.as_str(), path_url.as_str(), sources, k);
            let ghost before = courses@;
            courses.push(c);
            proof {
                assert(courses@.drop_last() =~= before);
                assert(sources@.subrange(k0 as int, *k as int) =~= sources@.subrange(k0 as int, kb as int) + sources@.subrange(kb as int, *k as int));
                lemma_lessons_built_concat(
                    courses_lessons(before), course_entries_inputs(all.take(t), ps), sources@.subrange(k0 as int, kb as int),
                    course_lessons(c), nested_sections_inputs(ce.1.sections@, ps, ce.0@), sources@.subrange(kb as int, *k as int),
                );
            }
            ei = ei + 1;
        }
        proof {
            assert(all.take(courses@.len() as int) == course_entries(maps.take(mi + 1)));
        }
        mi = mi + 1;
    }
    proof {
        assert(maps.take(maps.len() as int) =~= maps);
        assert(all.take(all.len() as int) =~= all);
    }
    Path {
        slug: path_slug.clone(),
        title: pd.title.clone(),
        description: pd.description.clone(),
        position,
        url: path_url,
        courses,
    }
}


proof fn lemma_path_entries_prefix(nav: Seq<Vec<(String, NestedPathData)>>, n: int)
    requires
        0 <= n <= nav.len(),
    ensures
        path_entries(nav.take(n)).len() <= path_entries(nav).len(),
        path_entries(nav.take(n)) == path_entries(nav).take(path_entries(nav.take(n)).len() as int),
    decreases nav.len(),
{
    if n == nav.len() {
        assert(nav.take(n) =~= nav);
        assert(path_entries(nav).take(path_entries(nav).len() as int) =~= path_entries(nav));
    } else {
        assert(nav.drop_last().take(n) =~= nav.take(n));
        lemma_path_entries_prefix(nav.drop_last(), n);
        let a = path_entries(nav.take(n));
        let b = path_entries(nav.drop_last());
        assert(path_entries(nav).take(a.len() as int) =~= b.take(a.len() as int));
    }
}

proof fn lemma_path_entries_step(nav: Seq<Vec<(String, NestedPathData)>>, mi: int)
    requires
        0 <= mi < nav.len(),
    ensures
        path_entries(nav.take(mi + 1)) == path_entries(nav.take(mi))
            + nav[mi]@.map_values(|e: (String, NestedPathData)| (e.0, e.1, (mi + 1) as u32)),
{
    assert(nav.take(mi + 1).drop_last() =~= nav.take(mi));
    assert(nav.take(mi + 1).last() == nav[mi]);
}

fn build_nested_paths(nav: &Vec<Vec<(String, NestedPathData)>>, sources: &Vec<LessonSource>) -> (res: Vec<Path>)
    requires
        sources@.len() == path_entries_inputs(path_entries(nav@)).len(),
    ensures
        nested_paths_fields(res@, path_entries(nav@)),
        lessons_built(paths_lessons(res@), path_entries_inputs(path_entries(nav@)), sources@),
{
    let ghost all = path_entries(nav@);
    let mut paths: Vec<Path> = Vec::new();
    let mut k: usize = 0;
    let mut mi: usize = 0;
    proof {
        assert(nav@.take(0) =~= Seq::<Vec<(String, NestedPathData)>>::empty());
        assert(sources@.subrange(0, 0) =~= Seq::<LessonSource>::empty());
        assert(all.take(0) =~= Seq::<(String, NestedPathData, u32)>::empty());
    }
    while mi < nav.len()
        invariant
            mi <= nav@.len(),
            all == path_entries(nav@),
            path_entries_inputs(all).len() == sources@.len(),
            paths@.len() == path_entries(nav@.take(mi as int)).len(),
            paths@.len() <= all.len(),
            all.take(paths@.len() as int) == path_entries(nav@.take(mi as int)),
            k == path_entries_inputs(all.take(paths@.len() as int)).len(),
            forall|m: int| 0 <= m < paths@.len() ==> nested_path_fields(#[trigger] paths@[m], all[m]),
            lessons_built(paths_lessons(paths@), path_entries_inputs(all.take(paths@.len() as int)), sources@.subrange(0, k as int)),
        decreases nav@.len() - mi,
    {
        let map = &nav[mi];
        let mpos: u32 = #[verifier::truncate] ((mi + 1) as u32);
        let ghost t0 = paths@.len() as int;
        proof {
            lemma_path_entries_step(nav@, mi as int);
            lemma_path_entries_prefix(nav@, mi + 1);
        }
        let mut ei: usize = 0;
        while ei < map.len()
            invariant
                ei <= map@.len(),
                *map == nav@[mi as int],
                mi < nav@.len(),
                all == path_entries(nav@),
                mpos == (mi + 1) as u32,
                t0 == path_entries(nav@.take(mi as int)).len(),
                path_entries(nav@.take(mi + 1)) == path_entries(nav@.take(mi as int))
                    + nav@[mi as int]@.map_values(|e: (String, NestedPathData)| (e.0, e.1, (mi + 1) as u32)),
                path_entries(nav@.take(mi + 1)) == all.take(path_entries(nav@.take(mi + 1)).len() as int),
                path_entries(nav@.take(mi + 1)).len() <= all.len(),
                path_entries_inputs(all).len() == sources@.len(),
                paths@.len() == t0 + ei,
                k == path_entries_inputs(all.take(paths@.len() as int)).len(),
                forall|m: int| 0 <= m < paths@.len() ==> nested_path_fields(#[trigger] paths@[m], all[m]),
                lessons_built(paths_lessons(paths@), path_entries_inputs(all.take(paths@.len() as int)), sources@.subrange(0, k as int)),
            decreases map@.len() - ei,
        {
            let ghost t = paths@.len() as int;
            let ghost kb = k;
            let pe = &map[ei];
            proof {
                assert(all[t] == path_entries(nav@.take(mi + 1))[t]);
                assert(all[t] == (pe.0, pe.1, mpos));
                assert(all =~= all.take(t + 1) + all.skip(t + 1));
                lemma_path_entries_inputs_concat(all.take(t + 1), all.skip(t + 1));
                assert(all.take(t + 1).drop_last() =~= all.take(t));
                assert(all.take(t + 1).last() == all[t]);
            }
            let p = build_nested_path(pe, mpos, sources, &mut k);
            let ghost before = paths@;
            paths.push(p);
            proof {
                assert(paths@.drop_last() =~= before);
                assert(sources@.subrange(0, k as int) =~= sources@.subrange(0, kb as int) + sources@.subrange(kb as int, k as int));
                lemma_lessons_built_concat(
                    paths_lessons(before), path_entries_inputs(all.take(t)), sources@.subrange(0, kb as int),
                    path_lessons(p), nested_path_inputs(all[t]), sources@.subrange(kb as int, k as int),
                );
            }
            ei = ei + 1;
        }
        proof {
            assert(all.take(paths@.len() as int) == path_entries(nav@.take(mi + 1)));
        }
        mi = mi + 1;
    }
    proof {
        assert(nav@.take(nav@.len() as int) =~= nav@);
        assert(all.take(all.len() as int) =~= all);
        assert(sources@.subrange(0, k as int) =~= sources@);
    }
    paths
}

proof fn lemma_nested_fields_survive_navigation(pre: Seq<Path>, post: Seq<Path>, es: Seq<(String, NestedPathData, u32)>)
    requires
        navigation_resolved(pre, post),
        nested_paths_fields(pre, es),
    ensures
        nested_paths_fields(post, es),
{
    assert forall|i: int| 0 <= i < post.len() implies nested_path_fields(#[trigger] post[i], es[i]) by {
        let a = pre[i];
        let b = post[i];
        assert(path_same_shape(a, b));
        assert(nested_path_fields(a, es[i]));
        let ces = course_entries(es[i].1.courses@);
        assert forall|j: int| 0 <= j < b.courses@.len() implies nested_course_fields(#[trigger] b.courses@[j], ces[j], es[i].0@) by {
            let ca = a.courses@[j];
            let cb = b.courses@[j];
            assert(course_same_shape(ca, cb));
            assert(nested_course_fields(ca, ces[j], es[i].0@));
            assert forall|q: int| 0 <= q < cb.sections@.len() implies nested_section_fields(#[trigger] cb.sections@[q], ces[j].1.sections@[q], (q + 1) as u32) by {
                assert(section_same_shape(ca.sections@[q], cb.sections@[q]));
                assert(nested_section_fields(ca.sections@[q], ces[j].1.sections@[q], (q + 1) as u32));
            }
        }
    }
}

/// Builds the curriculum of the nested layout from its single manifest and
/// the sources of all lessons in manifest order (map keys in ascending
/// order). Path and course slugs are the map keys; positions count from 1
/// per list of maps; navigation is resolved, the search index built and
/// the theme resolved.
pub fn parse_nested_format(
    manifest: NestedCurriculumManifest,
    sources: &Vec<LessonSource>,
) -> (res: (Curriculum, Vec<SearchEntry>))
    requires
        sources@.len() == nested_inputs(manifest).len(),
    ensures
        res.0.title@ == manifest.title@,
        res.0.description@ == manifest.description@,
        match manifest.custom_colors {
            Some(t) => res.0.theme == t,
            None => is_biophilic(res.0.theme),
        },
        nested_paths_fields(res.0.paths@, path_entries(manifest.nav@)),
        lessons_built(paths_lessons(res.0.paths@), nested_inputs(manifest), sources@),
        links_follow_order(res.0.paths@),
        entries_view(res.1@) == search_entries(res.0.paths@),
{
    let mut paths = build_nested_paths(&manifest.nav, sources);
    let ghost pre = paths@;
    resolve_all(&mut paths);
    proof {
        lemma_nested_fields_survive_navigation(pre, paths@, path_entries(manifest.nav@));
        lemma_built_survives_navigation(pre, paths@, nested_inputs(manifest), sources@);
        lemma_links_follow_position_order(pre, paths@);
    }
    let search_entries = build_search_index(&paths);
    let theme = resolve_theme_nested(&manifest);
    let NestedCurriculumManifest { title, description, nav: _, custom_colors: _, theme_preset: _ } = manifest;
    let curriculum = Curriculum { title, description, theme, paths };
    (curriculum, search_entries)
}


/// A section built by `parse_section` carries its manifest's title,
/// description and position, and has one lesson per manifest lesson.
pub proof fn lemma_section_keeps_manifest_fields(s: Section, sm: SectionManifest)
    requires
        section_fields(s, sm),
    ensures
        s.position == sm.position,
        s.title@ == sm.title@,
        s.description@ == sm.description@,
        s.lessons@.len() == sm.lessons@.len(),
{
}

/// In a curriculum of the older layout, every path, course and section
/// carries the title and position of its own manifest entry: path `i` those
/// of path manifest `i`, course `j` of it those of course manifest `j`, and
/// section `q` of that course those of section manifest `q`.
pub proof fn lemma_old_layout_keeps_positions(ps: Seq<Path>, pms: Seq<PathManifest>)
    requires
        paths_fields(ps, pms),
    ensures
        ps.len() == pms.len(),
        forall|i: int| 0 <= i < ps.len() ==> {
            &&& (#[trigger] ps[i]).position == pms[i].position
            &&& ps[i].title@ == pms[i].title@
            &&& ps[i].courses@.len() == pms[i].courses@.len()
        },
        forall|i: int, j: int| 0 <= i < ps.len() && 0 <= j < ps[i].courses@.len() ==> {
            &&& (#[trigger] ps[i].courses@[j]).position == pms[i].courses@[j].position
            &&& ps[i].courses@[j].title@ == pms[i].courses@[j].title@
            &&& ps[i].courses@[j].sections@.len() == pms[i].courses@[j].sections@.len()
        },
        forall|i: int, j: int, q: int|
            0 <= i < ps.len() && 0 <= j < ps[i].courses@.len() && 0 <= q < ps[i].courses@[j].sections@.len() ==> {
                &&& (#[trigger] ps[i].courses@[j].sections@[q]).position == pms[i].courses@[j].sections@[q].position
                &&& ps[i].courses@[j].sections@[q].title@ == pms[i].courses@[j].sections@[q].title@
            },
{
    assert forall|i: int, j: int| 0 <= i < ps.len() && 0 <= j < ps[i].courses@.len() implies {
        &&& (#[trigger] ps[i].courses@[j]).position == pms[i].courses@[j].position
        &&& ps[i].courses@[j].title@ == pms[i].courses@[j].title@
        &&& ps[i].courses@[j].sections@.len() == pms[i].courses@[j].sections@.len()
    } by {
        assert(path_fields(ps[i], pms[i]));
        assert(course_fields(ps[i].courses@[j], pms[i].courses@[j], ps[i].url@));
    }
    assert forall|i: int, j: int, q: int|
        0 <= i < ps.len() && 0 <= j < ps[i].courses@.len() && 0 <= q < ps[i].courses@[j].sections@.len() implies {
            &&& (#[trigger] ps[i].courses@[j].sections@[q]).position == pms[i].courses@[j].sections@[q].position
            &&& ps[i].courses@[j].sections@[q].title@ == pms[i].courses@[j].sections@[q].title@
        } by {
        assert(path_fields(ps[i], pms[i]));
        assert(course_fields(ps[i].courses@[j], pms[i].courses@[j], ps[i].url@));
        assert(section_fields(ps[i].courses@[j].sections@[q], pms[i].courses@[j].sections@[q]));
    }
}

/// In a curriculum of the nested layout, every path is titled with the
/// title of its path data and slugged with its map key, and every course is
/// titled with the title of its course data (not its key) and slugged with
/// its key.
pub proof fn lemma_nested_titles_come_from_data(m: NestedCurriculumManifest, ps: Seq<Path>)
    requires
        nested_paths_fields(ps, path_entries(m.nav@)),
    ensures
        ps.len() == path_entries(m.nav@).len(),
        forall|i: int| 0 <= i < ps.len() ==> {
            &&& (#[trigger] ps[i]).title@ == path_entries(m.nav@)[i].1.title@
            &&& ps[i].slug@ == path_entries(m.nav@)[i].0@
            &&& ps[i].courses@.len() == course_entries(path_entries(m.nav@)[i].1.courses@).len()
        },
        forall|i: int, j: int| 0 <= i < ps.len() && 0 <= j < ps[i].courses@.len() ==> {
            &&& (#[trigger] ps[i].courses@[j]).title@ == course_entries(path_entries(m.nav@)[i].1.courses@)[j].1.title@
            &&& ps[i].courses@[j].slug@ == course_entries(path_entries(m.nav@)[i].1.courses@)[j].0@
        },
{
    assert forall|i: int, j: int| 0 <= i < ps.len() && 0 <= j < ps[i].courses@.len() implies {
        &&& (#[trigger] ps[i].courses@[j]).title@ == course_entries(path_entries(m.nav@)[i].1.courses@)[j].1.title@
        &&& ps[i].courses@[j].slug@ == course_entries(path_entries(m.nav@)[i].1.courses@)[j].0@
    } by {
        assert(nested_path_fields(ps[i], path_entries(m.nav@)[i]));
        assert(nested_course_fields(ps[i].courses@[j], course_entries(path_entries(m.nav@)[i].1.courses@)[j], path_entries(m.nav@)[i].0@));
    }
}

/// Each entry of `es` is about the lesson of `ls` at the same place: same
/// title, URL, and the lesson's text as excerpt.
pub open spec fn entries_match_lessons(es: Seq<SearchEntryView>, ls: Seq<Lesson>) -> bool {
    &&& es.len() == ls.len()
    &&& forall|k: int| 0 <= k < es.len() ==> {
        &&& (#[trigger] es[k]).title == ls[k].display_title@
        &&& es[k].url == ls[k].url@
        &&& es[k].excerpt == prefix_chars(
            tags_stripped(match ls[k].html_content { Some(h) => h@, None => Seq::empty() }),
            excerpt_len(),
        )
    }
}

proof fn lemma_entries_match_concat(e1: Seq<SearchEntryView>, l1: Seq<Lesson>, e2: Seq<SearchEntryView>, l2: Seq<Lesson>)
    requires
        entries_match_lessons(e1, l1),
        entries_match_lessons(e2, l2),
    ensures
        entries_match_lessons(e1 + e2, l1 + l2),
{
    assert forall|k: int| 0 <= k < (e1 + e2).len() implies {
        &&& (#[trigger] (e1 + e2)[k]).title == (l1 + l2)[k].display_title@
        &&& (e1 + e2)[k].url == (l1 + l2)[k].url@
        &&& (e1 + e2)[k].excerpt == prefix_chars(
            tags_stripped(match (l1 + l2)[k].html_content { Some(h) => h@, None => Seq::empty() }),
            excerpt_len(),
        )
    } by {
        if k < e1.len() {
            assert((e1 + e2)[k] == e1[k]);
            assert((l1 + l2)[k] == l1[k]);
        } else {
            assert((e1 + e2)[k] == e2[k - e1.len()]);
            assert((l1 + l2)[k] == l2[k - l1.len()]);
        }
    }
}

proof fn lemma_courses_entries_match(pt: Seq<char>, cs: Seq<Course>)
    ensures
        entries_match_lessons(courses_search_entries(pt, cs), courses_lessons(cs)),
    decreases cs.len(),
{
    if cs.len() > 0 {
        lemma_courses_entries_match(pt, cs.drop_last());
        let c = cs.last();
        let ls = course_lessons(c);
        let es = ls.map_values(|l: Lesson| search_entry_for(pt, c.title@, l));
        assert(entries_match_lessons(es, ls));
        lemma_entries_match_concat(courses_search_entries(pt, cs.drop_last()), courses_lessons(cs.drop_last()), es, ls);
    }
}

/// The search index has one entry per lesson, in the flat lesson order:
/// entry `k` carries the display title and URL of lesson `k` and the first
/// 200 characters of its text.
pub proof fn lemma_search_index_follows_lessons(ps: Seq<Path>)
    ensures
        entries_match_lessons(search_entries(ps), paths_lessons(ps)),
    decreases ps.len(),
{
    if ps.len() > 0 {
        lemma_search_index_follows_lessons(ps.drop_last());
        let p = ps.last();
        lemma_courses_entries_match(p.title@, p.courses@);
        lemma_entries_match_concat(
            search_entries(ps.drop_last()), paths_lessons(ps.drop_last()),
            courses_search_entries(p.title@, p.courses@), path_lessons(p),
        );
    }
}


proof fn lemma_courses_entry_at(pt: Seq<char>, cs: Seq<Course>, j: int, k: int)
    requires
        0 <= j < cs.len(),
        0 <= k < course_lessons(cs[j]).len(),
    ensures
        courses_lessons(cs.take(j)).len() + k < courses_search_entries(pt, cs).len(),
        courses_search_entries(pt, cs)[courses_lessons(cs.take(j)).len() + k]
            == search_entry_for(pt, cs[j].title@, course_lessons(cs[j])[k]),
    decreases cs.len(),
{
    let c = cs.drop_last();
    lemma_courses_entries_match(pt, c);
    let pre = courses_search_entries(pt, c);
    let last = course_lessons(cs.last()).map_values(|l: Lesson| search_entry_for(pt, cs.last().title@, l));
    assert(courses_search_entries(pt, cs) == pre + last);
    if j == cs.len() - 1 {
        assert(cs.take(j) =~= c);
        assert((pre + last)[pre.len() + k] == last[k]);
    } else {
        assert(c.take(j) =~= cs.take(j));
        assert(c[j] == cs[j]);
        lemma_courses_entry_at(pt, c, j, k);
        assert((pre + last)[courses_lessons(cs.take(j)).len() + k] == pre[courses_lessons(cs.take(j)).len() + k]);
    }
}

/// The search index labels every entry with the path and the course that
/// hold its lesson: for lesson `k` of course `j` of path `i`, the entry at
/// that lesson's place in the flat lesson order carries the lesson's display
/// title and URL, the title of path `i` and the title of course `j` of it.
pub proof fn lemma_search_entry_labels(ps: Seq<Path>, es: Seq<SearchEntryView>, i: int, j: int, k: int)
    requires
        es == search_entries(ps),
        0 <= i < ps.len(),
        0 <= j < ps[i].courses@.len(),
        0 <= k < course_lessons(ps[i].courses@[j]).len(),
    ensures
        ({
            let n = paths_lessons(ps.take(i)).len() + courses_lessons(ps[i].courses@.take(j)).len() + k;
            let l = course_lessons(ps[i].courses@[j])[k];
            &&& 0 <= n < es.len()
            &&& es[n].course == ps[i].courses@[j].title@
            &&& es[n].path == ps[i].title@
            &&& es[n].title == l.display_title@
            &&& es[n].url == l.url@
        }),
    decreases ps.len(),
{
    let p = ps.drop_last();
    lemma_search_index_follows_lessons(p);
    let pre = search_entries(p);
    let last = courses_search_entries(ps.last().title@, ps.last().courses@);
    assert(search_entries(ps) == pre + last);
    if i == ps.len() - 1 {
        assert(ps.take(i) =~= p);
        lemma_courses_entry_at(ps.last().title@, ps.last().courses@, j, k);
        let m = courses_lessons(ps[i].courses@.take(j)).len() + k;
        assert((pre + last)[pre.len() + m] == last[m]);
    } else {
        assert(p.take(i) =~= ps.take(i));
        assert(p[i] == ps[i]);
        lemma_search_entry_labels(p, pre, i, j, k);
        let n = paths_lessons(ps.take(i)).len() + courses_lessons(ps[i].courses@.take(j)).len() + k;
        assert((pre + last)[n] == pre[n]);
    }
}

/// `pat` occurs in `s` at some position.
pub open spec fn occurs_in(pat: Seq<char>, s: Seq<char>) -> bool {
    exists|i: int| 0 <= i && i + pat.len() <= s.len() && #[trigger] s.subrange(i, i + pat.len()) == pat
}

/// Whether a root manifest is of the nested layout: its text mentions
/// `nav:`.
pub fn manifest_is_nested(content: &str) -> (res: bool)
    ensures
        res == occurs_in(seq!['n', 'a', 'v', ':'], content@),
{
    let ghost pat = seq!['n', 'a', 'v', ':'];
    let v = crate::keyed::chars_of(content);
    let n = v.len();
    if n < 4 {
        proof {
            assert forall|i: int| 0 <= i && i + pat.len() <= content@.len() implies #[trigger] content@.subrange(i, i + pat.len()) != pat by {}
        }
        return false;
    }
    let mut i: usize = 0;
    while i <= n - 4
        invariant
            pat == seq!['n', 'a', 'v', ':'],
            v@ == content@,
            n == v@.len(),
            n >= 4,
            i + 4 <= n + 1,
            forall|j: int| 0 <= j < i ==> #[trigger] content@.subrange(j, j + 4) != pat,
        decreases n - i,
    {
        if v[i] == 'n' && v[i + 1] == 'a' && v[i + 2] == 'v' && v[i + 3] == ':' {
            proof {
                assert(content@.subrange(i as int, i + 4) =~= pat);
                assert(content@.subrange(i as int, i + pat.len()) == pat);
            }
            return true;
        }
        proof {
            let w = content@.subrange(i as int, i + 4);
            if w =~= pat {
                assert(w[0] == v@[i as int] && w[1] == v@[i + 1] && w[2] == v@[i + 2] && w[3] == v@[i + 3]);
            }
        }
        i = i + 1;
    }
    proof {
        assert forall|j: int| 0 <= j && j + pat.len() <= content@.len() implies #[trigger] content@.subrange(j, j + pat.len()) != pat by {
            assert(j < i);
        }
    }
    false
}

} // verus!
