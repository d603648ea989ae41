//! What the site renderer decides before any template runs: which pages
//! exist, in which order, with which template, output file and title; and
//! the stylesheet with the theme's colours appended.
use vstd::prelude::*;
use crate::models::{course_lessons, theme_css, Curriculum, Theme};

verus! {

/// Which page of the site: the root, a path, a course or a lesson (by the
/// indices of its path, course and place in the course's lesson order).
#[derive(Clone, Copy)]
pub enum PageKind {
    Root,
    Path(usize),
    Course(usize, usize),
    Lesson(usize, usize, usize),
}

/// One page to render.
pub struct Page {
    pub kind: PageKind,
    /// The template that renders it.
    pub template: String,
    /// Its file, relative to the output directory.
    pub output: String,
    /// Its title.
    pub title: String,
}

/// A page as plain values.
pub struct PageView {
    pub kind: PageKind,
    pub template: Seq<char>,
    pub output: Seq<char>,
    pub title: Seq<char>,
}

impl View for Page {
    type V = PageView;

    open spec fn view(&self) -> PageView {
        PageView { kind: self.kind, template: self.template@, output: self.output@, title: self.title@ }
    }
}

/// The separator between the parts of a page title.
pub open spec fn title_sep() -> Seq<char> {
    " \u{2014} "@
}

/// The root page: `index.html`, titled with the curriculum's title.
pub open spec fn root_page(c: Curriculum) -> PageView {
    PageView { kind: PageKind::Root, template: "index.html"@, output: "index.html"@, title: c.title@ }
}

/// The page of path `i`: `<path>/index.html`, "path — curriculum".
pub open spec fn path_page(c: Curriculum, i: int) -> PageView {
    let p = c.paths@[i];
    PageView {
        kind: PageKind::Path(i as usize),
        template: "path.html"@,
        output: p.slug@ + "/index.html"@,
        title: p.title@ + title_sep() + c.title@,
    }
}

/// The page of course `j` of path `i`: `<path>/<course>/index.html`,
/// "course — path — curriculum".
pub open spec fn course_page(c: Curriculum, i: int, j: int) -> PageView {
    let p = c.paths@[i];
    let co = p.courses@[j];
    PageView {
        kind: PageKind::Course(i as usize, j as usize),
        template: "course.html"@,
        output: p.slug@ + "/"@ + co.slug@ + "/index.html"@,
        title: co.title@ + title_sep() + p.title@ + title_sep() + c.title@,
    }
}

/// The page of lesson `k` of course `j` of path `i`: the lesson's output
/// path, "lesson — curriculum".
pub open spec fn lesson_page(c: Curriculum, i: int, j: int, k: int) -> PageView {
    let l = course_lessons(c.paths@[i].courses@[j])[k];
    PageView {
        kind: PageKind::Lesson(i as usize, j as usize, k as usize),
        template: "lesson.html"@,
        output: l.output_path@,
        title: l.display_title@ + title_sep() + c.title@,
    }
}

/// The pages of the first `m` courses of path `i`: each course page
/// followed by its lesson pages.
pub open spec fn course_pages(c: Curriculum, i: int, m: int) -> Seq<PageView>
    decreases m,
{
    if m <= 0 {
        Seq::empty()
    } else {
        let j = m - 1;
        course_pages(c, i, j) + seq![course_page(c, i, j)]
            + Seq::new(course_lessons(c.paths@[i].courses@[j]).len(), |k: int| lesson_page(c, i, j, k))
    }
}

/// The pages of the first `n` paths: each path page followed by the pages
/// of its courses.
pub open spec fn path_pages(c: Curriculum, n: int) -> Seq<PageView>
    decreases n,
{
    if n <= 0 {
        Seq::empty()
    } else {
        let i = n - 1;
        path_pages(c, i) + seq![path_page(c, i)] + course_pages(c, i, c.paths@[i].courses@.len() as int)
    }
}

/// All pages of the site in rendering order: the root page, then each path
/// page followed by its course pages, each followed by its lesson pages.
pub open spec fn site_pages(c: Curriculum) -> Seq<PageView> {
    seq![root_page(c)] + path_pages(c, c.paths@.len() as int)
}

/// The pages as plain values.
pub open spec fn pages_view(ps: Seq<Page>) -> Seq<PageView> {
    ps.map_values(|p: Page| p@)
}

fn join3(a: &str, b: &str, c: &str) -> (res: String)
    ensures
        res@ == a@ + b@ + c@,
{
    let mut s = a.to_string();
    s.append(b);
    s.append(c);
    s
}

fn push_page(out: &mut Vec<Page>, kind: PageKind, template: &str, output: String, title: String)
    ensures
        pages_view(final(out)@) == pages_view(old(out)@).push(PageView { kind, template: template@, output: output@, title: title@ }),
{
    out.push(Page { kind, template: template.to_string(), output, title });
    proof {
        assert(pages_view(final(out)@) =~= pages_view(old(out)@).push(PageView { kind, template: template@, output: output@, title: title@ }));
    }
}

/// Lists every page of the site in the order it is rendered.
pub fn plan_pages(c: &Curriculum) -> (res: Vec<Page>)
    ensures
        pages_view(res@) == site_pages(*c),
{
    let mut out: Vec<Page> = Vec::new();
    push_page(&mut out, PageKind::Root, "index.html", "index.html".to_string(), c.title.clone());
    proof { assert(pages_view(out@) =~= seq![root_page(*c)] + path_pages(*c, 0)); }
    let sep = " \u{2014} ";
    let mut i: usize = 0;
    while i < c.paths.len()
        invariant
            i <= c.paths@.len(),
            sep@ == title_sep(),
            pages_view(out@) == seq![root_page(*c)] + path_pages(*c, i as int),
        decreases c.paths@.len() - i,
    {
        let p = &c.paths[i];
        let ptitle = join3(p.title.as_str(), sep, c.title.as_str());
        push_page(&mut out, PageKind::Path(i), "path.html", join3(p.slug.as_str(), "/index.html", ""), ptitle);
        proof { reveal_strlit(""); assert(pages_view(out@) =~= seq![root_page(*c)] + path_pages(*c, i as int) + seq![path_page(*c, i as int)] + course_pages(*c, i as int, 0)); }
        let mut j: usize = 0;
        while j < p.courses.len()
            invariant
                i < c.paths@.len(),
                *p == c.paths@[i as int],
                j <= p.courses@.len(),
                sep@ == title_sep(),
                ""@ == Seq::<char>::empty(),
                pages_view(out@) == seq![root_page(*c)] + path_pages(*c, i as int) + seq![path_page(*c, i as int)] + course_pages(*c, i as int, j as int),
            decreases p.courses@.len() - j,
        {
            let co = &p.courses[j];
            let mut output = join3(p.slug.as_str(), "/", co.slug.as_str());
            output.append("/index.html");
            let mut ctitle = join3(co.title.as_str(), sep, p.title.as_str());
            ctitle.append(sep);
            ctitle.append(c.title.as_str());
            push_page(&mut out, PageKind::Course(i, j), "course.html", output, ctitle);
            let lessons = co.all_lessons();
            let ghost base = pages_view(out@);
            let ghost ls = course_lessons(*co);
            let mut k: usize = 0;
            proof { assert(base + Seq::new(0, |q: int| lesson_page(*c, i as int, j as int, q)) =~= base); }
            while k < lessons.len()
                invariant
                    i < c.paths@.len(),
                    *p == c.paths@[i as int],
                    j < p.courses@.len(),
                    *co == p.courses@[j as int],
                    ls == course_lessons(*co),
                    ls.len() == lessons@.len(),
                    forall|q: int| 0 <= q < ls.len() ==> *lessons@[q] == #[trigger] ls[q],
                    k <= lessons@.len(),
                    sep@ == title_sep(),
                    pages_view(out@) == base + Seq::new(k as nat, |q: int| lesson_page(*c, i as int, j as int, q)),
                decreases lessons@.len() - k,
            {
                let l = lessons[k];
                let ltitle = join3(l.display_title.as_str(), sep, c.title.as_str());
                push_page(&mut out, PageKind::Lesson(i, j, k), "lesson.html", l.output_path.clone(), ltitle);
                proof {
                    assert(*l == ls[k as int]);
                    assert(pages_view(out@) =~= base + Seq::new((k + 1) as nat, |q: int| lesson_page(*c, i as int, j as int, q)));
                }
                k = k + 1;
            }
            proof {
                assert(pages_view(out@) =~= seq![root_page(*c)] + path_pages(*c, i as int) + seq![path_page(*c, i as int)] + course_pages(*c, i as int, j + 1));
            }
            j = j + 1;
        }
        proof {
            assert(pages_view(out@) =~= seq![root_page(*c)] + path_pages(*c, i + 1));
        }
        i = i + 1;
    }
    out
}

/// The stylesheet with the theme's variables appended after a marker.
pub open spec fn themed_css(stylesheet: Seq<char>, t: Theme) -> Seq<char> {
    stylesheet + "\n\n/* --- Theme Variables --- */\n"@ + theme_css(t@)
}

/// Appends the theme's `:root` variables to a stylesheet.
pub fn inject_theme_css(stylesheet: &str, theme: &Theme) -> (res: String)
    ensures
        res@ == themed_css(stylesheet@, *theme),
{
    let theme_css = theme.to_css();
    join3(stylesheet, "\n\n/* --- Theme Variables --- */\n", theme_css.as_str())
}

} // verus!
