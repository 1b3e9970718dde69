//! The records that a listing of the tree produces.

use vstd::prelude::*;
use crate::codec::optional_text;

verus! {

/// A note as it is listed.
#[derive(Clone, Debug, PartialEq, Eq)]
pub struct NoteInfo {
    pub id: String,
    pub title: String,
    pub path: String,
    pub category_id: String,
    pub sub_category_id: Option<String>,
    pub last_updated: String,
}

/// What a `NoteInfo` stands for.
pub struct NoteText {
    pub id: Seq<char>,
    pub title: Seq<char>,
    pub path: Seq<char>,
    pub category_id: Seq<char>,
    pub sub_category_id: Option<Seq<char>>,
    pub last_updated: Seq<char>,
}

impl View for NoteInfo {
    type V = NoteText;

    open spec fn view(&self) -> NoteText {
        NoteText {
            id: self.id@,
            title: self.title@,
            path: self.path@,
            category_id: self.category_id@,
            sub_category_id: optional_text(self.sub_category_id),
            last_updated: self.last_updated@,
        }
    }
}

/// A sub-category as it is listed.
#[derive(Clone, Debug, PartialEq, Eq)]
pub struct SubCategoryInfo {
    pub id: String,
    pub name: String,
    pub parent_id: String,
    pub created_time: String,
}

/// What a `SubCategoryInfo` stands for.
pub struct SubCategoryText {
    pub id: Seq<char>,
    pub name: Seq<char>,
    pub parent_id: Seq<char>,
    pub created_time: Seq<char>,
}

impl View for SubCategoryInfo {
    type V = SubCategoryText;

    open spec fn view(&self) -> SubCategoryText {
        SubCategoryText {
            id: self.id@,
            name: self.name@,
            parent_id: self.parent_id@,
            created_time: self.created_time@,
        }
    }
}

/// A category as it is listed, with its sub-categories.
#[derive(Clone, Debug, PartialEq, Eq)]
pub struct CategoryInfo {
    pub id: String,
    pub name: String,
    pub sub_categories: Vec<SubCategoryInfo>,
    pub created_time: String,
}

/// What a `CategoryInfo` stands for.
pub struct CategoryText {
    pub id: Seq<char>,
    pub name: Seq<char>,
    pub sub_categories: Seq<SubCategoryText>,
    pub created_time: Seq<char>,
}

/// What a sequence of sub-category records stands for.
pub open spec fn subcategory_texts(v: Seq<SubCategoryInfo>) -> Seq<SubCategoryText> {
    v.map_values(|s: SubCategoryInfo| s@)
}

/// What a sequence of category records stands for.
pub open spec fn category_texts(v: Seq<CategoryInfo>) -> Seq<CategoryText> {
    v.map_values(|c: CategoryInfo| c@)
}

/// What a sequence of note records stands for.
pub open spec fn note_texts(v: Seq<NoteInfo>) -> Seq<NoteText> {
    v.map_values(|n: NoteInfo| n@)
}

impl View for CategoryInfo {
    type V = CategoryText;

    open spec fn view(&self) -> CategoryText {
        CategoryText {
            id: self.id@,
            name: self.name@,
            sub_categories: subcategory_texts(self.sub_categories@),
            created_time: self.created_time@,
        }
    }
}

/// A copy of an optional string.
pub fn copy_optional(field: &Option<String>) -> (res: Option<String>)
    ensures
        optional_text(res) == optional_text(*field),
{
    match field {
        Some(s) => Some(s.clone()),
        None => None,
    }
}

impl NoteInfo {
    /// A copy of this record.
    pub fn duplicate(&self) -> (res: NoteInfo)
        ensures
            res@ == self@,
    {
        NoteInfo {
            id: self.id.clone(),
            title: self.title.clone(),
            path: self.path.clone(),
            category_id: self.category_id.clone(),
            sub_category_id: copy_optional(&self.sub_category_id),
            last_updated: self.last_updated.clone(),
        }
    }
}

impl SubCategoryInfo {
    /// A copy of this record.
    pub fn duplicate(&self) -> (res: SubCategoryInfo)
        ensures
            res@ == self@,
    {
        SubCategoryInfo {
            id: self.id.clone(),
            name: self.name.clone(),
            parent_id: self.parent_id.clone(),
            created_time: self.created_time.clone(),
        }
    }
}

impl CategoryInfo {
    /// A copy of this record.
    pub fn duplicate(&self) -> (res: CategoryInfo)
        ensures
            res@ == self@,
    {
        let mut subs: Vec<SubCategoryInfo> = Vec::new();
        let n = self.sub_categories.len();
        let mut i: usize = 0;
        while i < n
            invariant
                n == self.sub_categories.len(),
                i <= n,
                subcategory_texts(subs@) == subcategory_texts(self.sub_categories@).take(i as int),
            decreases n - i,
        {
            let copy = self.sub_categories[i].duplicate();
            proof {
                let all = subcategory_texts(self.sub_categories@);
                assert(all[i as int] == copy@);
                assert(subcategory_texts(subs@.push(copy)) =~= subcategory_texts(subs@).push(
                    copy@,
                ));
                assert(all.take(i + 1) =~= all.take(i as int).push(all[i as int]));
            }
            subs.push(copy);
            i += 1;
        }
        assert(subcategory_texts(self.sub_categories@).take(n as int) =~= subcategory_texts(
            self.sub_categories@,
        ));
        CategoryInfo {
            id: self.id.clone(),
            name: self.name.clone(),
            sub_categories: subs,
            created_time: self.created_time.clone(),
        }
    }
}

} // verus!
