//! Deciding the nested manifest from a scanned directory tree: which
//! directories count, the titles derived from directory and file names,
//! the sections taken from an older course manifest, and the assembly of
//! paths and courses. The directory walk itself is left to the caller.
use vstd::prelude::*;
use serde_yaml::Value;
use crate::keyed::{keys_ascending, pairs_view, put_in_order, put_key, sort_names, sorted_names};
use crate::manifest::{
    LessonValueView, NestedCourseData, NestedCourseView, NestedCurriculumManifest, NestedLessonValue, NestedPathData,
    NestedPathView, NestedSectionData, NestedSectionView,
};
use crate::keyed::chars_of;
use crate::text::{
    capitalized, join_capitalized, join_with, split_whitespace_words, strings_view, title_case, title_cased, ws_words,
};

verus! {

/// The `.md` suffix.
pub open spec fn md_suffix() -> Seq<char> {
    seq!['.', 'm', 'd']
}

/// `s` ends with `.md`.
pub open spec fn ends_with_md(s: Seq<char>) -> bool {
    s.len() >= 3 && s.subrange(s.len() - 3, s.len() as int) == md_suffix()
}

/// `s` with every trailing `.md` removed, as `trim_end_matches(".md")`.
pub open spec fn trim_md(s: Seq<char>) -> Seq<char>
    decreases s.len(),
{
    if ends_with_md(s) {
        trim_md(s.take(s.len() - 3))
    } else {
        s
    }
}

/// An ASCII digit or `_`: what a numbering prefix of a file name is made of.
pub open spec fn is_number_prefix_char(c: char) -> bool {
    ('0' <= c && c <= '9') || c == '_'
}

/// `s` without its leading digits and underscores.
pub open spec fn skip_number_prefix(s: Seq<char>) -> Seq<char>
    decreases s.len(),
{
    if s.len() > 0 && is_number_prefix_char(s[0]) {
        skip_number_prefix(s.drop_first())
    } else {
        s
    }
}

/// `s` with every `_` replaced by a space.
pub open spec fn underscores_to_spaces(s: Seq<char>) -> Seq<char> {
    s.map_values(|c: char| if c == '_' { ' ' } else { c })
}

/// The lesson title derived from a file name: `.md` trimmed, (optionally)
/// the numbering prefix dropped, underscores turned into spaces, and the
/// words capitalized and joined with single spaces.
pub open spec fn file_lesson_title(name: Seq<char>, drop_number_prefix: bool) -> Seq<char> {
    let base = if drop_number_prefix { skip_number_prefix(trim_md(name)) } else { trim_md(name) };
    join_with(ws_words(underscores_to_spaces(base)).map_values(|w: Seq<char>| capitalized(w)), seq![' '])
}

/// Derives a lesson title from a file name such as `01_how_it_works.md`:
/// trims `.md`, drops the numbering prefix when asked, turns underscores
/// into spaces and capitalizes each word ("How It Works").
pub fn lesson_title_from_file(name: &str, drop_number_prefix: bool) -> (res: String)
    ensures
        res@ == file_lesson_title(name@, drop_number_prefix),
{
    let v = chars_of(name);
    let mut end: usize = v.len();
    proof { assert(v@.take(end as int) =~= name@); }
    while end >= 3 && v[end - 3] == '.' && v[end - 2] == 'm' && v[end - 1] == 'd'
        invariant
            v@ == name@,
            end <= v@.len(),
            trim_md(name@) == trim_md(v@.take(end as int)),
        decreases end,
    {
        proof {
            let t = v@.take(end as int);
            assert(t.subrange(t.len() - 3, t.len() as int) =~= md_suffix());
            assert(t.take(t.len() - 3) =~= v@.take(end - 3));
        }
        end = end - 3;
    }
    proof {
        let t = v@.take(end as int);
        if t.len() >= 3 {
            assert(!(t.subrange(t.len() - 3, t.len() as int) =~= md_suffix())) by {
                if t.subrange(t.len() - 3, t.len() as int) =~= md_suffix() {
                    assert(t.subrange(t.len() - 3, t.len() as int)[0] == v@[end - 3]);
                    assert(t.subrange(t.len() - 3, t.len() as int)[1] == v@[end - 2]);
                    assert(t.subrange(t.len() - 3, t.len() as int)[2] == v@[end - 1]);
                }
            }
        }
    }
    let ghost trimmed = v@.take(end as int);
    let mut start: usize = 0;
    if drop_number_prefix {
        proof { assert(trimmed.subrange(0, end as int) =~= trimmed); }
        while start < end && (('0' <= v[start] && v[start] <= '9') || v[start] == '_')
            invariant
                v@ == name@,
                start <= end <= v@.len(),
                trimmed == v@.take(end as int),
                skip_number_prefix(trimmed) == skip_number_prefix(v@.subrange(start as int, end as int)),
            decreases end - start,
        {
            proof { assert(v@.subrange(start as int, end as int).drop_first() =~= v@.subrange(start + 1, end as int)); }
            start = start + 1;
        }
    } else {
        proof { assert(v@.subrange(0, end as int) =~= trimmed); }
    }
    let ghost base = v@.subrange(start as int, end as int);
    proof {
        if drop_number_prefix {
            assert(base == skip_number_prefix(trim_md(name@)));
        } else {
            assert(base == trim_md(name@));
        }
    }
    let mut spaced = String::new();
    let mut i: usize = start;
    while i < end
        invariant
            v@ == name@,
            start <= i <= end <= v@.len(),
            base == v@.subrange(start as int, end as int),
            spaced@ == underscores_to_spaces(v@.subrange(start as int, i as int)),
        decreases end - i,
    {
        let c = v[i];
        if c == '_' {
            spaced.push(' ');
        } else {
            spaced.push(c);
        }
        i = i + 1;
        proof { assert(spaced@ =~= underscores_to_spaces(v@.subrange(start as int, i as int))); }
    }
    let words = split_whitespace_words(spaced.as_str());
    join_capitalized(&words)
}

/// A name that starts with `.`.
pub open spec fn is_hidden_name(name: Seq<char>) -> bool {
    name.len() > 0 && name[0] == '.'
}

/// Whether a file or directory name is hidden (starts with `.`).
pub fn is_hidden(name: &str) -> (res: bool)
    ensures
        res == is_hidden_name(name@),
{
    if name.is_empty() {
        return false;
    }
    proof { assert(name@.len() > 0); }
    name.get_char(0) == '.'
}

/// A top-level directory that is not a learning path: hidden, or one of
/// `scripts`, `target`, `themes.yml`, `templates`.
pub open spec fn is_skipped_path_dir_name(name: Seq<char>) -> bool {
    is_hidden_name(name) || name == "scripts"@ || name == "target"@ || name == "themes.yml"@ || name == "templates"@
}

/// Whether a top-level directory is skipped when scanning for paths.
pub fn is_skipped_path_dir(name: &str) -> (res: bool)
    ensures
        res == is_skipped_path_dir_name(name@),
{
    is_hidden(name) || *name == *"scripts" || *name == *"target" || *name == *"themes.yml" || *name == *"templates"
}

/// A readable title for a directory name: its `_`-separated words
/// capitalized and joined with spaces.
pub fn dir_title(name: &str) -> (res: String)
    ensures
        res@ == title_cased(name@, '_'),
{
    title_case(name, '_')
}


/// A lesson entry read from an older course manifest: each field as found,
/// `None` where it is missing or of another type.
pub struct OldLessonEntry {
    pub file: Option<String>,
    pub title: Option<String>,
    pub is_project: Option<bool>,
}

/// A section entry read from an older course manifest; `lessons` is `None`
/// where the entry has no list of lessons.
pub struct OldSectionEntry {
    pub title: Option<String>,
    pub lessons: Option<Vec<OldLessonEntry>>,
}

/// What is read of an older course manifest.
pub struct OldCourseManifest {
    pub title: Option<String>,
    pub description: Option<String>,
    pub sections: Option<Vec<OldSectionEntry>>,
}

/// An optional text as plain characters.
pub open spec fn opt_chars(s: Option<String>) -> Option<Seq<char>> {
    match s {
        Some(t) => Some(t@),
        None => None,
    }
}

/// A lesson entry of an older course manifest as plain values.
pub struct OldLessonView {
    pub file: Option<Seq<char>>,
    pub title: Option<Seq<char>>,
    pub is_project: Option<bool>,
}

impl View for OldLessonEntry {
    type V = OldLessonView;

    open spec fn view(&self) -> OldLessonView {
        OldLessonView { file: opt_chars(self.file), title: opt_chars(self.title), is_project: self.is_project }
    }
}

/// Lesson entries as plain values.
pub open spec fn lesson_entries_view(es: Seq<OldLessonEntry>) -> Seq<OldLessonView> {
    es.map_values(|e: OldLessonEntry| e@)
}

/// A section entry of an older course manifest as plain values.
pub struct OldSectionView {
    pub title: Option<Seq<char>>,
    pub lessons: Option<Seq<OldLessonView>>,
}

impl View for OldSectionEntry {
    type V = OldSectionView;

    open spec fn view(&self) -> OldSectionView {
        OldSectionView {
            title: opt_chars(self.title),
            lessons: match self.lessons { Some(ls) => Some(lesson_entries_view(ls@)), None => None },
        }
    }
}

/// Section entries as plain values.
pub open spec fn section_entries_view(es: Seq<OldSectionEntry>) -> Seq<OldSectionView> {
    es.map_values(|e: OldSectionEntry| e@)
}

/// An older course manifest as plain values.
pub struct OldCourseManifestView {
    pub title: Option<Seq<char>>,
    pub description: Option<Seq<char>>,
    pub sections: Option<Seq<OldSectionView>>,
}

impl View for OldCourseManifest {
    type V = OldCourseManifestView;

    open spec fn view(&self) -> OldCourseManifestView {
        OldCourseManifestView {
            title: opt_chars(self.title),
            description: opt_chars(self.description),
            sections: match self.sections { Some(ss) => Some(section_entries_view(ss@)), None => None },
        }
    }
}

/// The lesson an old entry gives, keyed by its title: none when its title
/// or file is missing or empty; a project when it says so.
pub open spec fn old_lesson_pair(e: OldLessonView) -> Option<(Seq<char>, LessonValueView)> {
    match (e.title, e.file) {
        (Some(t), Some(f)) => if t.len() > 0 && f.len() > 0 {
            Some((t, if e.is_project == Some(true) {
                LessonValueView::WithMeta { file: f, is_project: true }
            } else {
                LessonValueView::File(f)
            }))
        } else {
            None
        },
        _ => None,
    }
}

/// The lessons of old entries gathered by title: in title order, a later
/// entry with the same title replacing an earlier one.
pub open spec fn old_lessons_map(es: Seq<OldLessonView>) -> Seq<(Seq<char>, LessonValueView)>
    decreases es.len(),
{
    if es.len() == 0 {
        Seq::empty()
    } else {
        let m = old_lessons_map(es.drop_last());
        match old_lesson_pair(es.last()) {
            Some(p) => put_key(m, p.0, p.1),
            None => m,
        }
    }
}

/// The section an old entry gives: none without a lesson list or without
/// any usable lesson; titled "Lessons" when it has no title.
pub open spec fn old_section_view(e: OldSectionView) -> Option<NestedSectionView> {
    match e.lessons {
        None => None,
        Some(ls) => {
            let m = old_lessons_map(ls);
            if m.len() == 0 {
                None
            } else {
                Some(NestedSectionView {
                    title: match e.title { Some(t) => t, None => "Lessons"@ },
                    description: Seq::empty(),
                    lessons: m,
                })
            }
        },
    }
}

/// The sections that old entries give, in order.
pub open spec fn old_sections_view(es: Seq<OldSectionView>) -> Seq<NestedSectionView>
    decreases es.len(),
{
    if es.len() == 0 {
        Seq::empty()
    } else {
        old_sections_view(es.drop_last()) + match old_section_view(es.last()) {
            Some(v) => seq![v],
            None => Seq::empty(),
        }
    }
}

/// Sections as plain values.
pub open spec fn sections_view(ss: Seq<NestedSectionData>) -> Seq<NestedSectionView> {
    ss.map_values(|s: NestedSectionData| s@)
}

fn old_lessons(es: &Vec<OldLessonEntry>) -> (res: Vec<(String, NestedLessonValue)>)
    ensures
        pairs_view(res@) == old_lessons_map(lesson_entries_view(es@)),
        keys_ascending(pairs_view(res@)),
{
    let mut map: Vec<(String, NestedLessonValue)> = Vec::new();
    let mut i: usize = 0;
    proof { assert(pairs_view(map@) =~= old_lessons_map(lesson_entries_view(es@.take(0)))); }
    while i < es.len()
        invariant
            i <= es@.len(),
            pairs_view(map@) == old_lessons_map(lesson_entries_view(es@.take(i as int))),
            keys_ascending(pairs_view(map@)),
        decreases es@.len() - i,
    {
        let e = &es[i];
        proof {
            assert(lesson_entries_view(es@.take(i + 1)).drop_last() =~= lesson_entries_view(es@.take(i as int)));
            assert(lesson_entries_view(es@.take(i + 1)).last() == e@);
        }
        match (&e.title, &e.file) {
            (Some(t), Some(f)) => {
                if !t.as_str().is_empty() && !f.as_str().is_empty() {
                    let value = match e.is_project {
                        Some(true) => NestedLessonValue::WithMeta { file: f.clone(), is_project: true },
                        _ => NestedLessonValue::File(f.clone()),
                    };
                    put_in_order(&mut map, t.clone(), value);
                }
            },
            _ => {},
        }
        i = i + 1;
    }
    proof { assert(es@.take(es@.len() as int) =~= es@); }
    map
}

/// The sections of an older course manifest, converted to the nested
/// layout: entries without a lesson list or without a usable lesson are
/// dropped, lessons are keyed by title in title order.
pub fn sections_from_course_manifest(sections: &Vec<OldSectionEntry>) -> (res: Vec<NestedSectionData>)
    ensures
        sections_view(res@) == old_sections_view(section_entries_view(sections@)),
{
    let mut out: Vec<NestedSectionData> = Vec::new();
    let mut i: usize = 0;
    proof { assert(sections_view(out@) =~= old_sections_view(section_entries_view(sections@.take(0)))); }
    while i < sections.len()
        invariant
            i <= sections@.len(),
            sections_view(out@) == old_sections_view(section_entries_view(sections@.take(i as int))),
        decreases sections@.len() - i,
    {
        let e = &sections[i];
        let ghost before = sections_view(out@);
        proof {
            assert(section_entries_view(sections@.take(i + 1)).drop_last() =~= section_entries_view(sections@.take(i as int)));
            assert(section_entries_view(sections@.take(i + 1)).last() == e@);
        }
        if let Some(ls) = &e.lessons {
            let lessons = old_lessons(ls);
            if lessons.len() > 0 {
                let title = match &e.title {
                    Some(t) => t.clone(),
                    None => "Lessons".to_string(),
                };
                out.push(NestedSectionData { title, description: String::new(), lessons });
                proof {
                    assert(sections_view(out@) =~= before + seq![old_section_view(e@)->0]);
                }
            } else {
                proof { assert(pairs_view(lessons@).len() == 0); }
            }
        }
        proof {
            assert(sections_view(out@) =~= old_sections_view(section_entries_view(sections@.take(i + 1))));
        }
        i = i + 1;
    }
    proof { assert(sections@.take(sections@.len() as int) =~= sections@); }
    out
}

/// The lessons of a section directory from the names of its `.md` files in
/// name order: keyed by the title derived from each name (numbering prefix
/// dropped), names whose title is empty left out, a later file with the
/// same title replacing an earlier one.
pub open spec fn dir_lessons_map(names: Seq<Seq<char>>) -> Seq<(Seq<char>, LessonValueView)>
    decreases names.len(),
{
    if names.len() == 0 {
        Seq::empty()
    } else {
        let m = dir_lessons_map(names.drop_last());
        let t = file_lesson_title(names.last(), true);
        if t.len() > 0 {
            put_key(m, t, LessonValueView::File(names.last()))
        } else {
            m
        }
    }
}

/// Builds the lessons of a section directory from the names of its `.md`
/// files, in any order: the names are sorted first (which respects
/// numbering prefixes such as `01_`, `02_`), then each gives a lesson.
pub fn lessons_from_files(names: Vec<String>) -> (res: Vec<(String, NestedLessonValue)>)
    ensures
        pairs_view(res@) == dir_lessons_map(sorted_names(strings_view(names@))),
        keys_ascending(pairs_view(res@)),
{
    let names = sort_names(names);
    let ghost ns = strings_view(names@);
    let mut map: Vec<(String, NestedLessonValue)> = Vec::new();
    let mut i: usize = 0;
    proof { assert(pairs_view(map@) =~= dir_lessons_map(ns.take(0))); }
    while i < names.len()
        invariant
            i <= names@.len(),
            ns == strings_view(names@),
            pairs_view(map@) == dir_lessons_map(ns.take(i as int)),
            keys_ascending(pairs_view(map@)),
        decreases names@.len() - i,
    {
        let name = &names[i];
        proof {
            assert(ns.take(i + 1).drop_last() =~= ns.take(i as int));
            assert(ns.take(i + 1).last() == name@);
        }
        let title = lesson_title_from_file(name.as_str(), true);
        if !title.as_str().is_empty() {
            put_in_order(&mut map, title, NestedLessonValue::File(name.clone()));
        }
        i = i + 1;
    }
    proof { assert(ns.take(ns.len() as int) =~= ns); }
    map
}


/// An entry of a course directory: its name, whether it is a directory,
/// and, for a directory, the lessons `lessons_from_files` gave for its
/// `.md` files.
pub struct CourseDirItem {
    pub name: String,
    pub is_dir: bool,
    pub lessons: Vec<(String, NestedLessonValue)>,
}

/// An entry of a course directory that the scan ignores: hidden, or the
/// manifest itself.
pub open spec fn is_ignored_item(name: Seq<char>) -> bool {
    is_hidden_name(name) || name == "manifest.yaml"@
}

/// The state of a course-directory scan after `items`: the sections from
/// subdirectories so far, whether any subdirectory was seen, and the
/// lessons from `.md` files at the course root.
pub open spec fn scan_state(items: Seq<CourseDirItem>) -> (Seq<NestedSectionView>, bool, Seq<(Seq<char>, LessonValueView)>)
    decreases items.len(),
{
    if items.len() == 0 {
        (Seq::empty(), false, Seq::empty())
    } else {
        let st = scan_state(items.drop_last());
        let it = items.last();
        if is_ignored_item(it.name@) {
            st
        } else if it.is_dir {
            let ls = pairs_view(it.lessons@);
            (if ls.len() > 0 {
                st.0.push(NestedSectionView { title: title_cased(it.name@, '_'), description: Seq::empty(), lessons: ls })
            } else {
                st.0
            }, true, st.2)
        } else if ends_with_md(it.name@) {
            (st.0, st.1, put_key(st.2, file_lesson_title(it.name@, false), LessonValueView::File(it.name@)))
        } else {
            st
        }
    }
}

/// The sections of a course directory: one per subdirectory with lessons,
/// in the order given; when there is no subdirectory, the root `.md` files
/// form one section titled "Lessons".
pub open spec fn scanned_sections(items: Seq<CourseDirItem>) -> Seq<NestedSectionView> {
    let st = scan_state(items);
    if !st.1 && st.2.len() > 0 {
        st.0.push(NestedSectionView { title: "Lessons"@, description: Seq::empty(), lessons: st.2 })
    } else {
        st.0
    }
}

/// Builds the sections of a course directory from its entries, in the
/// order the directory listed them.
pub fn sections_from_scan(items: Vec<CourseDirItem>) -> (res: Vec<NestedSectionData>)
    ensures
        sections_view(res@) == scanned_sections(items@),
{
    let ghost all = items@;
    let mut sections: Vec<NestedSectionData> = Vec::new();
    let mut has_subdirs = false;
    let mut flat: Vec<(String, NestedLessonValue)> = Vec::new();
    proof { assert(all.take(0) =~= Seq::<CourseDirItem>::empty()); }
    for it in iter: items
        invariant
            iter.seq() == all,
            sections_view(sections@) == scan_state(all.take(iter.index() as int)).0,
            has_subdirs == scan_state(all.take(iter.index() as int)).1,
            pairs_view(flat@) == scan_state(all.take(iter.index() as int)).2,
            keys_ascending(pairs_view(flat@)),
    {
        let ghost i = iter.index() as int;
        let ghost git = it;
        let ghost before = sections_view(sections@);
        proof {
            assert(all.take(i + 1).drop_last() =~= all.take(i));
            assert(all.take(i + 1).last() == git);
        }
        let CourseDirItem { name, is_dir, lessons } = it;
        let ignored = is_hidden(name.as_str()) || *name.as_str() == *"manifest.yaml";
        if !ignored {
            if is_dir {
                has_subdirs = true;
                if lessons.len() > 0 {
                    let title = dir_title(name.as_str());
                    sections.push(NestedSectionData { title, description: String::new(), lessons });
                    proof {
                        assert(sections_view(sections@) =~= before.push(NestedSectionView {
                            title: title_cased(git.name@, '_'),
                            description: Seq::empty(),
                            lessons: pairs_view(git.lessons@),
                        }));
                    }
                }
            } else if ends_md(name.as_str()) {
                let title = lesson_title_from_file(name.as_str(), false);
                put_in_order(&mut flat, title, NestedLessonValue::File(name));
            }
        }
    }
    proof { assert(all.take(all.len() as int) =~= all); }
    if !has_subdirs && flat.len() > 0 {
        let ghost before = sections_view(sections@);
        let ghost fl = pairs_view(flat@);
        sections.push(NestedSectionData { title: "Lessons".to_string(), description: String::new(), lessons: flat });
        proof {
            assert(sections_view(sections@) =~= before.push(NestedSectionView { title: "Lessons"@, description: Seq::empty(), lessons: fl }));
        }
    }
    sections
}

/// Whether a name ends with `.md`.
pub fn ends_md(name: &str) -> (res: bool)
    ensures
        res == ends_with_md(name@),
{
    let v = chars_of(name);
    let n = v.len();
    if n < 3 {
        return false;
    }
    let res = v[n - 3] == '.' && v[n - 2] == 'm' && v[n - 1] == 'd';
    proof {
        let t = name@.subrange(n - 3, n as int);
        if res {
            assert(t =~= md_suffix());
        } else {
            if t =~= md_suffix() {
                assert(t[0] == v@[n - 3] && t[1] == v@[n - 2] && t[2] == v@[n - 1]);
            }
        }
    }
    res
}

/// Where a course's sections come from: its older manifest, or a scan of
/// its directory.
pub enum CourseSource {
    Manifest(OldCourseManifest),
    Scanned(Vec<NestedSectionData>),
}

/// The course that an older course manifest gives the directory named
/// `slug`: titled from the manifest (or the title-cased name), described by
/// it (or not at all), with its sections; none without sections.
pub open spec fn manifest_course_view(slug: Seq<char>, m: OldCourseManifestView) -> Option<NestedCourseView> {
    let sections = match m.sections { Some(ss) => old_sections_view(ss), None => Seq::empty() };
    if sections.len() == 0 {
        None
    } else {
        Some(NestedCourseView {
            title: match m.title { Some(t) => t, None => title_cased(slug, '_') },
            description: match m.description { Some(d) => d, None => Seq::empty() },
            sections,
        })
    }
}

/// The course a directory named `slug` gives: from its manifest as
/// `manifest_course_view` says, or titled with the title-cased name, not
/// described, with the scanned sections; none without sections.
pub open spec fn course_view_for(slug: Seq<char>, source: CourseSource) -> Option<NestedCourseView> {
    match source {
        CourseSource::Manifest(m) => manifest_course_view(slug, m@),
        CourseSource::Scanned(ss) => if ss@.len() == 0 {
            None
        } else {
            Some(NestedCourseView { title: title_cased(slug, '_'), description: Seq::empty(), sections: sections_view(ss@) })
        },
    }
}

/// Builds the course entry (a one-key map) for the course directory named
/// `slug`; `None` when it has no sections.
pub fn course_entry(slug: &str, source: CourseSource) -> (res: Option<Vec<(String, NestedCourseData)>>)
    ensures
        match course_view_for(slug@, source) {
            None => res is None,
            Some(v) => res matches Some(m) && pairs_view(m@) == seq![(slug@, v)],
        },
{
    let default_title = dir_title(slug);
    let (title, description, sections) = match source {
        CourseSource::Manifest(m) => {
            let OldCourseManifest { title, description, sections } = m;
            let t = match title { Some(t) => t, None => default_title };
            let d = match description { Some(d) => d, None => String::new() };
            let ss = match &sections { Some(ss) => sections_from_course_manifest(ss), None => Vec::new() };
            (t, d, ss)
        },
        CourseSource::Scanned(ss) => (default_title, String::new(), ss),
    };
    if sections.len() == 0 {
        return None;
    }
    let ghost v = NestedCourseView { title: title@, description: description@, sections: sections_view(sections@) };
    let data = NestedCourseData { title, description, sections };
    let mut map: Vec<(String, NestedCourseData)> = Vec::new();
    map.push((slug.to_string(), data));
    proof { assert(pairs_view(map@) =~= seq![(slug@, v)]); }
    Some(map)
}

/// Course maps as plain values.
pub open spec fn course_maps_view(cs: Seq<Vec<(String, NestedCourseData)>>) -> Seq<Seq<(Seq<char>, NestedCourseView)>> {
    cs.map_values(|m: Vec<(String, NestedCourseData)>| pairs_view(m@))
}

/// The path a top-level directory named `slug` gives: titled from its
/// manifest (or the title-cased name), described by its manifest (or not
/// at all); none without courses.
pub open spec fn path_view_for(
    slug: Seq<char>, title: Option<String>, description: Option<String>, courses: Seq<Vec<(String, NestedCourseData)>>,
) -> Option<NestedPathView> {
    if courses.len() == 0 {
        None
    } else {
        Some(NestedPathView {
            title: match title { Some(t) => t@, None => title_cased(slug, '_') },
            description: match description { Some(d) => d@, None => Seq::empty() },
            courses: course_maps_view(courses),
        })
    }
}

/// Builds the path entry (a one-key map) for the top-level directory named
/// `slug` with the title and description of its manifest, if any; `None`
/// when it has no courses.
pub fn path_entry(
    slug: &str,
    manifest_title: Option<String>,
    manifest_description: Option<String>,
    courses: Vec<Vec<(String, NestedCourseData)>>,
) -> (res: Option<Vec<(String, NestedPathData)>>)
    ensures
        match path_view_for(slug@, manifest_title, manifest_description, courses@) {
            None => res is None,
            Some(v) => res matches Some(m) && pairs_view(m@) == seq![(slug@, v)],
        },
{
    if courses.len() == 0 {
        return None;
    }
    let title = match manifest_title { Some(t) => t, None => dir_title(slug) };
    let description = match manifest_description { Some(d) => d, None => String::new() };
    let ghost v = NestedPathView { title: title@, description: description@, courses: course_maps_view(courses@) };
    let data = NestedPathData { title, description, courses };
    proof { assert(data@.courses =~= course_maps_view(courses@)); }
    let mut map: Vec<(String, NestedPathData)> = Vec::new();
    map.push((slug.to_string(), data));
    proof { assert(pairs_view(map@) =~= seq![(slug@, v)]); }
    Some(map)
}

/// A generated path entry is titled with the title its manifest gives; only
/// where the manifest gives none is the directory name title-cased. Either
/// way the entry exists exactly when the path has courses.
pub proof fn lemma_path_title_prefers_manifest(
    slug: Seq<char>, title: Option<String>, description: Option<String>, courses: Seq<Vec<(String, NestedCourseData)>>,
)
    ensures
        path_view_for(slug, title, description, courses) is Some <==> courses.len() > 0,
        courses.len() > 0 ==> path_view_for(slug, title, description, courses)->0.title == match title {
            Some(t) => t@,
            None => title_cased(slug, '_'),
        },
        courses.len() > 0 ==> path_view_for(slug, title, description, courses)->0.description == match description {
            Some(d) => d@,
            None => Seq::<char>::empty(),
        },
{
}

/// A course entry taken from an older manifest is titled with the title the
/// manifest gives; only where it gives none is the directory name
/// title-cased.
pub proof fn lemma_course_title_prefers_manifest(slug: Seq<char>, m: OldCourseManifestView)
    requires
        manifest_course_view(slug, m) is Some,
    ensures
        manifest_course_view(slug, m)->0.title == match m.title {
            Some(t) => t,
            None => title_cased(slug, '_'),
        },
{
}

/// The title used when the root manifest gives none.
pub open spec fn default_site_title() -> Seq<char> {
    "The Odin Project"@
}

/// The description used when the root manifest gives none.
pub open spec fn default_site_description() -> Seq<char> {
    "A free, open-source coding curriculum."@
}

/// Assembles the nested manifest: the root manifest's title and
/// description (or the defaults), the navigation list, no custom colours
/// and no preset.
pub fn assemble_manifest(
    main_title: Option<String>,
    main_description: Option<String>,
    nav: Vec<Vec<(String, NestedPathData)>>,
) -> (res: NestedCurriculumManifest)
    ensures
        res.title@ == match main_title { Some(t) => t@, None => default_site_title() },
        res.description@ == match main_description { Some(d) => d@, None => default_site_description() },
        res.nav == nav,
        res.custom_colors is None,
        res.theme_preset is None,
{
    let title = match main_title { Some(t) => t, None => "The Odin Project".to_string() };
    let description = match main_description {
        Some(d) => d,
        None => "A free, open-source coding curriculum.".to_string(),
    };
    NestedCurriculumManifest { title, description, nav, custom_colors: None, theme_preset: None }
}

impl OldLessonEntry {
    /// A lesson entry from the fields as found.
    pub fn new(file: Option<String>, title: Option<String>, is_project: Option<bool>) -> (res: OldLessonEntry)
        ensures
            res.file == file,
            res.title == title,
            res.is_project == is_project,
    {
        OldLessonEntry { file, title, is_project }
    }
}

impl OldSectionEntry {
    /// A section entry from the fields as found.
    pub fn new(title: Option<String>, lessons: Option<Vec<OldLessonEntry>>) -> (res: OldSectionEntry)
        ensures
            res.title == title,
            res.lessons == lessons,
    {
        OldSectionEntry { title, lessons }
    }
}

impl OldCourseManifest {
    /// What is read of an older course manifest, from the fields as found.
    pub fn new(title: Option<String>, description: Option<String>, sections: Option<Vec<OldSectionEntry>>) -> (res: OldCourseManifest)
        ensures
            res.title == title,
            res.description == description,
            res.sections == sections,
    {
        OldCourseManifest { title, description, sections }
    }
}

/// What `serde_yaml::from_str` reads from a manifest's text, taken as an
/// older course manifest: `None` where the text is not YAML; else its
/// `title` and `description` strings and its `sections` sequence, each
/// section's `title` string and `lessons` sequence, and each lesson's
/// `file` and `title` strings and `is_project` boolean, each `None` where it
/// is missing or of another kind.
pub uninterp spec fn yaml_manifest(text: Seq<char>) -> Option<OldCourseManifestView>;

/// Parses a manifest's text with `serde_yaml::from_str` into a
/// `serde_yaml::Value` and takes out the fields an older course manifest
/// has, with `Value::get`, `as_str`, `as_sequence` and `as_bool`. Trusted:
/// the result is named `yaml_manifest`.
#[verifier::external_body]
pub(crate) fn parse_manifest(text: &str) -> (res: Option<OldCourseManifest>)
    ensures
        match res {
            Some(m) => yaml_manifest(text@) == Some(m@),
            None => yaml_manifest(text@) is None,
        },
{
    let v: Value = serde_yaml::from_str(text).ok()?;
    let s = |v: &Value, k| v.get(k)?.as_str().map(String::from);
    let q = |v: &Value, k| v.get(k)?.as_sequence().cloned();
    Some(OldCourseManifest::new(s(&v, "title"), s(&v, "description"), q(&v, "sections").map(|x| x.iter().map(|e| {
        OldSectionEntry::new(s(e, "title"), q(e, "lessons").map(|x| x.iter().map(|l| {
            OldLessonEntry::new(s(l, "file"), s(l, "title"), l.get("is_project").and_then(Value::as_bool))
        }).collect()))
    }).collect())))
}

/// Why a manifest's text could not be read.
pub enum ManifestError {
    /// The text is not YAML.
    InvalidYaml,
}

/// The course entry for the directory named `slug` whose `manifest.yaml`
/// holds `text`: an error where the text is not YAML, else (a one-key map,
/// or `None` without sections) what its manifest gives.
pub fn course_entry_from_text(slug: &str, text: &str) -> (res: Result<Option<Vec<(String, NestedCourseData)>>, ManifestError>)
    ensures
        match yaml_manifest(text@) {
            None => res is Err,
            Some(m) => res matches Ok(r) && match manifest_course_view(slug@, m) {
                None => r is None,
                Some(v) => r matches Some(e) && pairs_view(e@) == seq![(slug@, v)],
            },
        },
{
    match parse_manifest(text) {
        Some(m) => Ok(course_entry(slug, CourseSource::Manifest(m))),
        None => Err(ManifestError::InvalidYaml),
    }
}

/// The `title` and `description` strings of a manifest's text (each `None`
/// where missing or not a string); an error where the text is not YAML.
pub fn manifest_titles(text: &str) -> (res: Result<(Option<String>, Option<String>), ManifestError>)
    ensures
        match yaml_manifest(text@) {
            None => res is Err,
            Some(m) => res matches Ok(p) && opt_chars(p.0) == m.title && opt_chars(p.1) == m.description,
        },
{
    match parse_manifest(text) {
        Some(m) => {
            let OldCourseManifest { title, description, sections: _ } = m;
            Ok((title, description))
        },
        None => Err(ManifestError::InvalidYaml),
    }
}

} // verus!
