//! The curriculum tree: Curriculum → Path → Course → Section → Lesson, the
//! navigation records stored on each lesson, search entries and themes.
use vstd::prelude::*;

verus! {

/// The whole curriculum.
#[derive(Clone)]
pub struct Curriculum {
    pub title: String,
    pub description: String,
    pub theme: Theme,
    /// All learning paths, ordered by `position`.
    pub paths: Vec<Path>,
}

/// A learning path (e.g. "Foundations").
#[derive(Clone)]
pub struct Path {
    /// URL-safe identifier derived from `title`.
    pub slug: String,
    pub title: String,
    pub description: String,
    pub position: u32,
    /// Relative URL of this path's index page.
    pub url: String,
    pub courses: Vec<Course>,
}

/// A course within a path.
#[derive(Clone)]
pub struct Course {
    pub slug: String,
    pub title: String,
    pub description: String,
    pub position: u32,
    /// Relative URL of this course's index page.
    pub url: String,
    /// Badge file name, if any.
    pub badge_uri: Option<String>,
    pub sections: Vec<Section>,
}

/// A group of lessons within a course.
#[derive(Clone)]
pub struct Section {
    pub title: String,
    pub description: String,
    pub position: u32,
    pub lessons: Vec<Lesson>,
}

/// One lesson page.
#[derive(Clone)]
pub struct Lesson {
    /// URL-safe slug.
    pub slug: String,
    pub title: String,
    /// The title as shown: prefixed with "Project: " for projects.
    pub display_title: String,
    pub description: String,
    pub position: u32,
    pub is_project: bool,
    /// Path of the source `.md` file.
    pub source_path: String,
    /// Root-relative output path, e.g. "foundations/intro/lesson/index.html".
    pub output_path: String,
    /// Root-relative URL, e.g. "/foundations/intro/lesson/".
    pub url: String,
    /// Rendered HTML body.
    pub html_content: Option<String>,
    /// The previous lesson in the global order by path, course, section and
    /// lesson position.
    pub prev: Option<LessonRef>,
    /// The next lesson in that order.
    pub next: Option<LessonRef>,
    /// Breadcrumb trail: Curriculum → Path → Course → (this lesson).
    pub breadcrumbs: Vec<Breadcrumb>,
}

/// A reference to an adjacent lesson for prev/next navigation.
#[derive(Clone)]
pub struct LessonRef {
    pub title: String,
    pub url: String,
}

/// One step of a breadcrumb trail.
#[derive(Clone)]
pub struct Breadcrumb {
    /// Human-readable label.
    pub label: String,
    /// Root-relative URL (empty for the current page).
    pub url: String,
    /// True for the active (last) crumb.
    pub is_current: bool,
}

/// One entry of the client-side search index.
#[derive(Clone)]
pub struct SearchEntry {
    pub title: String,
    pub url: String,
    pub path: String,
    pub course: String,
    /// The first characters of the lesson's plain text.
    pub excerpt: String,
}

/// The colours of the site.
#[derive(Clone)]
pub struct Theme {
    pub bg: String,
    pub text: String,
    pub accent: String,
    pub border: String,
    pub accent_text: String,
}

/// A search entry as plain character sequences.
pub struct SearchEntryView {
    pub title: Seq<char>,
    pub url: Seq<char>,
    pub path: Seq<char>,
    pub course: Seq<char>,
    pub excerpt: Seq<char>,
}

impl View for SearchEntry {
    type V = SearchEntryView;

    open spec fn view(&self) -> SearchEntryView {
        SearchEntryView {
            title: self.title@,
            url: self.url@,
            path: self.path@,
            course: self.course@,
            excerpt: self.excerpt@,
        }
    }
}

/// A theme as plain character sequences.
pub struct ThemeView {
    pub bg: Seq<char>,
    pub text: Seq<char>,
    pub accent: Seq<char>,
    pub border: Seq<char>,
    pub accent_text: Seq<char>,
}

impl View for Theme {
    type V = ThemeView;

    open spec fn view(&self) -> ThemeView {
        ThemeView {
            bg: self.bg@,
            text: self.text@,
            accent: self.accent@,
            border: self.border@,
            accent_text: self.accent_text@,
        }
    }
}

/// The lessons of a sequence of sections, section after section.
pub open spec fn sections_lessons(ss: Seq<Section>) -> Seq<Lesson>
    decreases ss.len(),
{
    if ss.len() == 0 {
        Seq::empty()
    } else {
        sections_lessons(ss.drop_last()) + ss.last().lessons@
    }
}

/// The lessons of a course in order.
pub open spec fn course_lessons(c: Course) -> Seq<Lesson> {
    sections_lessons(c.sections@)
}

/// The lessons of a sequence of courses, course after course.
pub open spec fn courses_lessons(cs: Seq<Course>) -> Seq<Lesson>
    decreases cs.len(),
{
    if cs.len() == 0 {
        Seq::empty()
    } else {
        courses_lessons(cs.drop_last()) + course_lessons(cs.last())
    }
}

/// The lessons of a path in order.
pub open spec fn path_lessons(p: Path) -> Seq<Lesson> {
    courses_lessons(p.courses@)
}

/// The global flat lesson order: path after path, course after course,
/// section after section.
pub open spec fn paths_lessons(ps: Seq<Path>) -> Seq<Lesson>
    decreases ps.len(),
{
    if ps.len() == 0 {
        Seq::empty()
    } else {
        paths_lessons(ps.drop_last()) + path_lessons(ps.last())
    }
}

/// A sequence of lesson references read as the lessons they point to.
pub open spec fn derefs(rs: Seq<&Lesson>) -> Seq<Lesson> {
    rs.map_values(|r: &Lesson| *r)
}

fn push_lesson_refs<'a>(out: &mut Vec<&'a Lesson>, lessons: &'a Vec<Lesson>)
    ensures
        derefs(final(out)@) == derefs(old(out)@) + lessons@,
{
    let ghost start = out@;
    let mut j: usize = 0;
    while j < lessons.len()
        invariant
            j <= lessons@.len(),
            derefs(out@) == derefs(start) + lessons@.take(j as int),
        decreases lessons@.len() - j,
    {
        let ghost before = out@;
        out.push(&lessons[j]);
        proof {
            assert(out@ == before.push(&lessons@[j as int]));
            assert(derefs(out@) =~= derefs(before).push(lessons@[j as int]));
            assert(lessons@.take(j + 1) =~= lessons@.take(j as int).push(lessons@[j as int]));
        }
        j = j + 1;
    }
    proof { assert(lessons@.take(lessons@.len() as int) =~= lessons@); }
}

impl Course {
    /// All lessons of this course, section after section.
    pub fn all_lessons(&self) -> (res: Vec<&Lesson>)
        ensures
            derefs(res@) == course_lessons(*self),
    {
        let mut out: Vec<&Lesson> = Vec::new();
        let mut i: usize = 0;
        proof { assert(derefs(out@) =~= sections_lessons(self.sections@.take(0))); }
        while i < self.sections.len()
            invariant
                i <= self.sections@.len(),
                derefs(out@) == sections_lessons(self.sections@.take(i as int)),
            decreases self.sections@.len() - i,
        {
            push_lesson_refs(&mut out, &self.sections[i].lessons);
            proof {
                assert(self.sections@.take(i + 1).drop_last() =~= self.sections@.take(i as int));
            }
            i = i + 1;
        }
        proof { assert(self.sections@.take(self.sections@.len() as int) =~= self.sections@); }
        out
    }

    /// The lesson after the first one whose slug is `current_slug`, within
    /// this course; `None` when no lesson has that slug or it is the last.
    pub fn next_lesson_after(&self, current_slug: &str) -> (res: Option<&Lesson>)
        ensures
            match first_with_slug(course_lessons(*self), current_slug@) {
                Some(pos) => if pos + 1 < course_lessons(*self).len() {
                    res == Some(&course_lessons(*self)[pos + 1])
                } else {
                    res is None
                },
                None => res is None,
            },
    {
        let lessons = self.all_lessons();
        let ghost ls = course_lessons(*self);
        assert(ls.len() == lessons@.len());
        let mut k: usize = 0;
        while k < lessons.len()
            invariant
                k <= lessons@.len(),
                derefs(lessons@) == ls,
                ls.len() == lessons@.len(),
                ls == course_lessons(*self),
                forall|m: int| 0 <= m < k ==> (#[trigger] ls[m]).slug@ != current_slug@,
            decreases lessons@.len() - k,
        {
            let l = lessons[k];
            assert(*l == ls[k as int]);
            if *l.slug.as_str() == *current_slug {
                proof { lemma_first_with_slug(ls, current_slug@, k as int); }
                assert(first_with_slug(course_lessons(*self), current_slug@) == Some(k as int));
                if k + 1 < lessons.len() {
                    let nl = lessons[k + 1];
                    assert(*nl == ls[k + 1]);
                    assert(Some(nl) == Some(&ls[k + 1]));
                    return Some(nl);
                } else {
                    return None;
                }
            }
            k = k + 1;
        }
        proof { lemma_first_with_slug_none(ls, current_slug@); }
        None
    }
}

/// The index of the first lesson whose slug is `slug`.
pub open spec fn first_with_slug(ls: Seq<Lesson>, slug: Seq<char>) -> Option<int> {
    if exists|m: int| 0 <= m < ls.len() && (#[trigger] ls[m]).slug@ == slug {
        Some(choose|m: int| 0 <= m < ls.len() && (#[trigger] ls[m]).slug@ == slug
            && forall|j: int| 0 <= j < m ==> (#[trigger] ls[j]).slug@ != slug)
    } else {
        None
    }
}

proof fn lemma_first_with_slug(ls: Seq<Lesson>, slug: Seq<char>, k: int)
    requires
        0 <= k < ls.len(),
        ls[k].slug@ == slug,
        forall|m: int| 0 <= m < k ==> (#[trigger] ls[m]).slug@ != slug,
    ensures
        first_with_slug(ls, slug) == Some(k),
{
    let w = choose|m: int| 0 <= m < ls.len() && (#[trigger] ls[m]).slug@ == slug
        && forall|j: int| 0 <= j < m ==> (#[trigger] ls[j]).slug@ != slug;
    assert(0 <= k < ls.len() && ls[k].slug@ == slug && forall|j: int| 0 <= j < k ==> (#[trigger] ls[j]).slug@ != slug);
    if w < k {
        assert(ls[w].slug@ != slug);
    } else if w > k {
        assert(ls[k].slug@ != slug);
    }
}

proof fn lemma_first_with_slug_none(ls: Seq<Lesson>, slug: Seq<char>)
    requires
        forall|m: int| 0 <= m < ls.len() ==> (#[trigger] ls[m]).slug@ != slug,
    ensures
        first_with_slug(ls, slug) is None,
{
}

impl Path {
    /// All lessons of this path, course after course.
    pub fn all_lessons(&self) -> (res: Vec<&Lesson>)
        ensures
            derefs(res@) == path_lessons(*self),
    {
        let mut out: Vec<&Lesson> = Vec::new();
        let mut i: usize = 0;
        proof { assert(derefs(out@) =~= courses_lessons(self.courses@.take(0))); }
        while i < self.courses.len()
            invariant
                i <= self.courses@.len(),
                derefs(out@) == courses_lessons(self.courses@.take(i as int)),
            decreases self.courses@.len() - i,
        {
            let course = &self.courses[i];
            let mut s: usize = 0;
            let ghost base = derefs(out@);
            proof { assert(sections_lessons(course.sections@.take(0)) =~= Seq::<Lesson>::empty()); assert(base + Seq::<Lesson>::empty() =~= base); }
            while s < course.sections.len()
                invariant
                    s <= course.sections@.len(),
                    derefs(out@) == base + sections_lessons(course.sections@.take(s as int)),
                decreases course.sections@.len() - s,
            {
                push_lesson_refs(&mut out, &course.sections[s].lessons);
                proof {
                    assert(course.sections@.take(s + 1).drop_last() =~= course.sections@.take(s as int));
                    assert(derefs(out@) =~= base + sections_lessons(course.sections@.take(s + 1)));
                }
                s = s + 1;
            }
            proof {
                assert(course.sections@.take(course.sections@.len() as int) =~= course.sections@);
                assert(self.courses@.take(i + 1).drop_last() =~= self.courses@.take(i as int));
            }
            i = i + 1;
        }
        proof { assert(self.courses@.take(self.courses@.len() as int) =~= self.courses@); }
        out
    }
}


/// The accent text colour used when a theme does not give one.
pub fn default_accent_text() -> (res: String)
    ensures
        res@ == "#ffffff"@,
{
    "#ffffff".to_string()
}

/// The `:root` CSS block that declares a theme's colours as variables.
pub open spec fn theme_css(t: ThemeView) -> Seq<char> {
    ":root {\n  --bg: "@ + t.bg + ";\n  --text: "@ + t.text + ";\n  --accent: "@ + t.accent
        + ";\n  --border: "@ + t.border + ";\n  --accent-text: "@ + t.accent_text + ";\n}\n"@
}

impl Theme {
    /// The default "Biophilic" preset.
    pub fn biophilic() -> (res: Theme)
        ensures
            res.bg@ == "#f9fbf9"@,
            res.text@ == "#1a2e1a"@,
            res.accent@ == "#4a7c44"@,
            res.border@ == "#d1dbd1"@,
            res.accent_text@ == "#ffffff"@,
    {
        Theme {
            bg: "#f9fbf9".to_string(),
            text: "#1a2e1a".to_string(),
            accent: "#4a7c44".to_string(),
            border: "#d1dbd1".to_string(),
            accent_text: "#ffffff".to_string(),
        }
    }

    /// A `:root` CSS block holding these colours as variables.
    pub fn to_css(&self) -> (res: String)
        ensures
            res@ == theme_css(self@),
    {
        let mut out = ":root {\n  --bg: ".to_string();
        out.append(self.bg.as_str());
        out.append(";\n  --text: ");
        out.append(self.text.as_str());
        out.append(";\n  --accent: ");
        out.append(self.accent.as_str());
        out.append(";\n  --border: ");
        out.append(self.border.as_str());
        out.append(";\n  --accent-text: ");
        out.append(self.accent_text.as_str());
        out.append(";\n}\n");
        out
    }
}

} // verus!
