//! The schema of the `manifest.yaml` files: the per-path manifests of the
//! older layout, the root manifest that lists them, and the single nested
//! manifest of the newer layout. Maps of the nested layout are held as
//! lists of `(key, value)` pairs in ascending key order, keys distinct.
use vstd::prelude::*;
use crate::keyed::pairs_view;
use crate::models::Theme;

verus! {

/// The manifest at the root of a path directory.
pub struct PathManifest {
    pub title: String,
    pub description: String,
    pub position: u32,
    pub courses: Vec<CourseManifest>,
}

/// A course entry of a path manifest.
pub struct CourseManifest {
    pub slug: String,
    pub title: String,
    pub description: String,
    pub position: u32,
    pub badge_uri: Option<String>,
    pub sections: Vec<SectionManifest>,
}

/// A section entry of a course manifest.
pub struct SectionManifest {
    pub title: String,
    pub description: String,
    pub position: u32,
    pub lessons: Vec<LessonManifest>,
}

/// A lesson entry of a section manifest.
pub struct LessonManifest {
    /// File name relative to the course directory.
    pub file: String,
    pub title: String,
    pub description: String,
    pub is_project: bool,
}

/// The root manifest of the older layout.
pub struct CurriculumManifest {
    pub title: String,
    pub description: String,
    /// Ordered list of the path directories to include.
    pub paths: Vec<String>,
    pub custom_colors: Option<Theme>,
    pub theme_preset: Option<String>,
}

/// The single manifest of the nested layout.
pub struct NestedCurriculumManifest {
    pub title: String,
    pub description: String,
    /// Each entry maps path slugs to their data.
    pub nav: Vec<Vec<(String, NestedPathData)>>,
    pub custom_colors: Option<Theme>,
    pub theme_preset: Option<String>,
}

/// A path of the nested layout.
pub struct NestedPathData {
    pub title: String,
    pub description: String,
    /// Each entry maps course slugs to their data.
    pub courses: Vec<Vec<(String, NestedCourseData)>>,
}

/// A course of the nested layout.
pub struct NestedCourseData {
    pub title: String,
    pub description: String,
    pub sections: Vec<NestedSectionData>,
}

/// A section of the nested layout.
pub struct NestedSectionData {
    pub title: String,
    pub description: String,
    /// Lesson titles mapped to their files.
    pub lessons: Vec<(String, NestedLessonValue)>,
}

/// A lesson of the nested layout: a bare file name, or a file name with
/// the project flag.
pub enum NestedLessonValue {
    File(String),
    WithMeta { file: String, is_project: bool },
}


/// A nested-layout lesson value as plain values.
pub enum LessonValueView {
    File(Seq<char>),
    WithMeta { file: Seq<char>, is_project: bool },
}

impl View for NestedLessonValue {
    type V = LessonValueView;

    open spec fn view(&self) -> LessonValueView {
        match self {
            NestedLessonValue::File(f) => LessonValueView::File(f@),
            NestedLessonValue::WithMeta { file, is_project } => LessonValueView::WithMeta { file: file@, is_project: *is_project },
        }
    }
}

/// A nested-layout section as plain values.
pub struct NestedSectionView {
    pub title: Seq<char>,
    pub description: Seq<char>,
    pub lessons: Seq<(Seq<char>, LessonValueView)>,
}

impl View for NestedSectionData {
    type V = NestedSectionView;

    open spec fn view(&self) -> NestedSectionView {
        NestedSectionView { title: self.title@, description: self.description@, lessons: pairs_view(self.lessons@) }
    }
}

/// A nested-layout course as plain values.
pub struct NestedCourseView {
    pub title: Seq<char>,
    pub description: Seq<char>,
    pub sections: Seq<NestedSectionView>,
}

impl View for NestedCourseData {
    type V = NestedCourseView;

    open spec fn view(&self) -> NestedCourseView {
        NestedCourseView {
            title: self.title@,
            description: self.description@,
            sections: self.sections@.map_values(|s: NestedSectionData| s@),
        }
    }
}

/// A nested-layout path as plain values.
pub struct NestedPathView {
    pub title: Seq<char>,
    pub description: Seq<char>,
    pub courses: Seq<Seq<(Seq<char>, NestedCourseView)>>,
}

impl View for NestedPathData {
    type V = NestedPathView;

    open spec fn view(&self) -> NestedPathView {
        NestedPathView {
            title: self.title@,
            description: self.description@,
            courses: self.courses@.map_values(|m: Vec<(String, NestedCourseData)>| pairs_view(m@)),
        }
    }
}

} // verus!
