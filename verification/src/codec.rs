//! Note identity: the composite id of a note, and where it lies on disk.
//!
//! This is the one place that knows the separator of ids, the separator of
//! path segments and the suffix of note files.

use vstd::prelude::*;
use vstd::string::*;
use crate::error::{ErrorKind, StoreError, plain_failure};

verus! {

/// The character that separates the three fields of a note id.
pub const SEPARATOR: char = '#';

/// The character that separates the segments of a path.
pub const SLASH: char = '/';

/// `s` holds no separator.
pub open spec fn separator_free(s: Seq<char>) -> bool {
    forall|i: int| 0 <= i < s.len() ==> s[i] != SEPARATOR
}

/// The position of the first separator in `s`, or the length of `s` where it
/// holds none.
pub open spec fn first_separator(s: Seq<char>) -> int
    decreases s.len(),
{
    if s.len() == 0 || s[0] == SEPARATOR {
        0
    } else {
        1 + first_separator(s.drop_first())
    }
}

/// The pieces of `s` between its separators, in order. A text with `k`
/// separators has `k + 1` pieces, some of which may be empty.
pub open spec fn fields(s: Seq<char>) -> Seq<Seq<char>>
    decreases s.len(),
{
    let cut = first_separator(s);
    if 0 <= cut < s.len() {
        seq![s.take(cut)] + fields(s.skip(cut + 1))
    } else {
        seq![s]
    }
}

/// The text of an optional field: empty where the field is absent.
pub open spec fn field_text(field: Option<Seq<char>>) -> Seq<char> {
    match field {
        Some(s) => s,
        None => Seq::empty(),
    }
}

/// The three fields joined by the separator.
pub open spec fn id_text(
    category: Seq<char>,
    subcategory: Option<Seq<char>>,
    title: Seq<char>,
) -> Seq<char> {
    category + seq![SEPARATOR] + field_text(subcategory) + seq![SEPARATOR] + title
}

/// The id of a note, where each of its fields is free of the separator.
pub open spec fn encoded(
    category: Seq<char>,
    subcategory: Option<Seq<char>>,
    title: Seq<char>,
) -> Option<Seq<char>> {
    if separator_free(category) && separator_free(field_text(subcategory)) && separator_free(
        title,
    ) {
        Some(id_text(category, subcategory, title))
    } else {
        None
    }
}

/// The first of the three fields that holds the separator, where one does.
pub open spec fn offending_field(
    category: Seq<char>,
    subcategory: Option<Seq<char>>,
    title: Seq<char>,
) -> Seq<char> {
    if !separator_free(category) {
        category
    } else if !separator_free(field_text(subcategory)) {
        field_text(subcategory)
    } else {
        title
    }
}

/// The logical identity of a note.
#[derive(Clone, Debug, PartialEq, Eq)]
pub struct NoteKey {
    pub category: String,
    pub subcategory: Option<String>,
    pub title: String,
}

/// What a `NoteKey` stands for.
pub struct NoteKeyText {
    pub category: Seq<char>,
    pub subcategory: Option<Seq<char>>,
    pub title: Seq<char>,
}

/// The text of an optional string.
pub open spec fn optional_text(field: Option<String>) -> Option<Seq<char>> {
    match field {
        Some(s) => Some(s@),
        None => None,
    }
}

/// The text of an optional string slice.
pub open spec fn optional_str_text(field: Option<&str>) -> Option<Seq<char>> {
    match field {
        Some(s) => Some(s@),
        None => None,
    }
}

impl View for NoteKey {
    type V = NoteKeyText;

    open spec fn view(&self) -> NoteKeyText {
        NoteKeyText {
            category: self.category@,
            subcategory: optional_text(self.subcategory),
            title: self.title@,
        }
    }
}

/// The identity that an id names: defined where the id has exactly three
/// fields. An empty middle field says that the note has no sub-category.
pub open spec fn decoded(id: Seq<char>) -> Option<NoteKeyText> {
    let parts = fields(id);
    if parts.len() == 3 {
        Some(
            NoteKeyText {
                category: parts[0],
                subcategory: if parts[1].len() == 0 {
                    None
                } else {
                    Some(parts[1])
                },
                title: parts[2],
            },
        )
    } else {
        None
    }
}

/// The texts of a sequence of strings.
pub open spec fn texts(v: Seq<String>) -> Seq<Seq<char>> {
    v.map_values(|s: String| s@)
}

/// `first_separator` is the one position that holds a separator (or is the
/// end of the text) and has none before it.
pub proof fn lemma_first_separator_is(s: Seq<char>, p: int)
    requires
        0 <= p <= s.len(),
        forall|j: int| 0 <= j < p ==> s[j] != SEPARATOR,
        p < s.len() ==> s[p] == SEPARATOR,
    ensures
        first_separator(s) == p,
    decreases s.len(),
{
    if s.len() == 0 || s[0] == SEPARATOR {
    } else {
        let rest = s.drop_first();
        assert forall|j: int| 0 <= j < p - 1 implies rest[j] != SEPARATOR by {
            assert(rest[j] == s[j + 1]);
        }
        lemma_first_separator_is(rest, p - 1);
    }
}

/// A text without a separator is its own single field.
pub proof fn lemma_fields_of_free(s: Seq<char>)
    requires
        separator_free(s),
    ensures
        fields(s) == seq![s],
{
    lemma_first_separator_is(s, s.len() as int);
}

/// The fields of a text that starts with a separator-free piece and a
/// separator: that piece, then the fields of what follows.
pub proof fn lemma_fields_of_joined(head: Seq<char>, tail: Seq<char>)
    requires
        separator_free(head),
    ensures
        fields(head + seq![SEPARATOR] + tail) == seq![head] + fields(tail),
{
    let s = head + seq![SEPARATOR] + tail;
    lemma_first_separator_is(s, head.len() as int);
    assert(s.take(head.len() as int) =~= head);
    assert(s.skip(head.len() as int + 1) =~= tail);
}

/// Tells whether `s` holds the separator.
pub fn contains_separator(s: &str) -> (res: bool)
    ensures
        res == !separator_free(s@),
{
    let n = s.unicode_len();
    let mut i: usize = 0;
    while i < n
        invariant
            n == s@.len(),
            i <= n,
            forall|j: int| 0 <= j < i ==> s@[j] != SEPARATOR,
        decreases n - i,
    {
        if s.get_char(i) == SEPARATOR {
            return true;
        }
        i += 1;
    }
    false
}

/// Splits `s` at each separator.
pub fn split_fields(s: &str) -> (res: Vec<String>)
    ensures
        texts(res@) == fields(s@),
{
    let n = s.unicode_len();
    let mut parts: Vec<String> = Vec::new();
    let mut start: usize = 0;
    let mut i: usize = 0;
    assert(s@.skip(0) =~= s@);
    assert(texts(parts@) =~= Seq::<Seq<char>>::empty());
    while i < n
        invariant
            n == s@.len(),
            start <= i <= n,
            forall|j: int| start <= j < i ==> s@[j] != SEPARATOR,
            fields(s@) == texts(parts@) + fields(s@.skip(start as int)),
        decreases n - i,
    {
        if s.get_char(i) == SEPARATOR {
            let piece = String::from_str(s.substring_char(start, i));
            proof {
                let rest = s@.skip(start as int);
                lemma_first_separator_is(rest, i - start);
                assert(rest.take(i - start) =~= piece@);
                assert(rest.skip(i - start + 1) =~= s@.skip(i + 1));
                assert(texts(parts@.push(piece)) =~= texts(parts@) + seq![piece@]);
            }
            parts.push(piece);
            start = i + 1;
        }
        i += 1;
    }
    let piece = String::from_str(s.substring_char(start, n));
    proof {
        let rest = s@.skip(start as int);
        lemma_first_separator_is(rest, rest.len() as int);
        assert(rest =~= piece@);
        assert(texts(parts@.push(piece)) =~= texts(parts@) + seq![piece@]);
    }
    parts.push(piece);
    parts
}

/// The id of the note with the given fields.
///
/// Fails with `InvalidIdentity` where a field holds the separator; the
/// failure is about the first such field.
pub fn encode(category: &str, subcategory: Option<&str>, title: &str) -> (res: Result<
    String,
    StoreError,
>)
    ensures
        match res {
            Ok(id) => encoded(category@, optional_str_text(subcategory), title@) == Some(id@),
            Err(e) => encoded(category@, optional_str_text(subcategory), title@) is None && e@
                == plain_failure(
                ErrorKind::InvalidIdentity,
                offending_field(category@, optional_str_text(subcategory), title@),
            ),
        },
{
    let middle: &str = match subcategory {
        Some(s) => s,
        None => "",
    };
    proof {
        reveal_strlit("");
        assert(middle@ =~= field_text(optional_str_text(subcategory)));
    }
    if contains_separator(category) {
        Err(StoreError::new(ErrorKind::InvalidIdentity, category))
    } else if contains_separator(middle) {
        Err(StoreError::new(ErrorKind::InvalidIdentity, middle))
    } else if contains_separator(title) {
        Err(StoreError::new(ErrorKind::InvalidIdentity, title))
    } else {
        Ok(join_id(category, subcategory, title))
    }
}

/// The three fields joined by the separator, whatever they hold.
pub fn join_id(category: &str, subcategory: Option<&str>, title: &str) -> (res: String)
    ensures
        res@ == id_text(category@, optional_str_text(subcategory), title@),
{
    let mut id = String::from_str(category);
    proof {
        reveal_strlit("#");
        assert("#"@ =~= seq![SEPARATOR]);
    }
    id.append("#");
    match subcategory {
        Some(s) => {
            id.append(s);
        },
        None => {
            assert(id@ + Seq::<char>::empty() =~= id@);
        },
    }
    id.append("#");
    id.append(title);
    id
}

/// The identity that `id` names.
///
/// Fails with `MalformedId` unless `id` has exactly three fields.
pub fn decode(id: &str) -> (res: Result<NoteKey, StoreError>)
    ensures
        match res {
            Ok(key) => decoded(id@) == Some(key@),
            Err(e) => decoded(id@) is None && e@ == plain_failure(ErrorKind::MalformedId, id@),
        },
{
    let parts = split_fields(id);
    assert(texts(parts@).len() == parts@.len());
    if parts.len() != 3 {
        return Err(StoreError::new(ErrorKind::MalformedId, id));
    }
    assert(texts(parts@)[0] == parts@[0]@);
    assert(texts(parts@)[1] == parts@[1]@);
    assert(texts(parts@)[2] == parts@[2]@);
    let category = parts[0].clone();
    let middle = parts[1].clone();
    let title = parts[2].clone();
    let subcategory = if middle.as_str().unicode_len() == 0 {
        None
    } else {
        Some(middle)
    };
    Ok(NoteKey { category, subcategory, title })
}

/// Decoding the id of a note gives its fields back, for fields free of the
/// separator and a sub-category that is absent or not empty.
pub proof fn lemma_decode_encode(
    category: Seq<char>,
    subcategory: Option<Seq<char>>,
    title: Seq<char>,
)
    requires
        separator_free(category),
        separator_free(field_text(subcategory)),
        separator_free(title),
        subcategory != Some(Seq::<char>::empty()),
    ensures
        encoded(category, subcategory, title) is Some,
        decoded(encoded(category, subcategory, title).unwrap()) == Some(
            NoteKeyText { category, subcategory, title },
        ),
{
    let middle = field_text(subcategory);
    let id = id_text(category, subcategory, title);
    let tail = middle + seq![SEPARATOR] + title;
    assert(id =~= category + seq![SEPARATOR] + tail);
    lemma_fields_of_joined(category, tail);
    lemma_fields_of_joined(middle, title);
    lemma_fields_of_free(title);
    assert(fields(id) =~= seq![category, middle, title]);
    if let Some(sub) = subcategory {
        if sub.len() == 0 {
            assert(sub =~= Seq::<char>::empty());
        }
    }
}

/// Two path segments joined by the slash.
pub open spec fn joined(dir: Seq<char>, name: Seq<char>) -> Seq<char> {
    dir + seq![SLASH] + name
}

/// The suffix of the file names of notes.
pub open spec fn note_suffix() -> Seq<char> {
    seq!['.', 'j', 's', 'o', 'n']
}

/// The directory of a category.
pub open spec fn category_path_text(data_dir: Seq<char>, category: Seq<char>) -> Seq<char> {
    joined(data_dir, category)
}

/// The directory of a sub-category.
pub open spec fn subcategory_path_text(
    data_dir: Seq<char>,
    category: Seq<char>,
    subcategory: Seq<char>,
) -> Seq<char> {
    joined(joined(data_dir, category), subcategory)
}

/// The directory that holds a note: that of its sub-category, or that of its
/// category where it has none.
pub open spec fn note_dir_text(
    data_dir: Seq<char>,
    category: Seq<char>,
    subcategory: Option<Seq<char>>,
) -> Seq<char> {
    match subcategory {
        Some(sub) => subcategory_path_text(data_dir, category, sub),
        None => category_path_text(data_dir, category),
    }
}

/// The file of a note: its title and the suffix, in the directory that holds
/// it.
pub open spec fn path_text(
    data_dir: Seq<char>,
    category: Seq<char>,
    subcategory: Option<Seq<char>>,
    title: Seq<char>,
) -> Seq<char> {
    joined(note_dir_text(data_dir, category, subcategory), title + note_suffix())
}

/// The title of the note that a file of the given name holds: the name
/// without the suffix. A name that does not end in the suffix, or that is the
/// suffix alone, is not that of a note.
pub open spec fn title_of_file(name: Seq<char>) -> Option<Seq<char>> {
    let cut = name.len() - note_suffix().len();
    if cut > 0 && name.skip(cut) == note_suffix() {
        Some(name.take(cut))
    } else {
        None
    }
}

/// Appends a slash and `name` to `dir`.
pub fn join_path(dir: &str, name: &str) -> (res: String)
    ensures
        res@ == joined(dir@, name@),
{
    let mut path = String::from_str(dir);
    proof {
        reveal_strlit("/");
        assert("/"@ =~= seq![SLASH]);
    }
    path.append("/");
    path.append(name);
    path
}

/// The directory of the category `category` under `data_dir`.
pub fn category_path(data_dir: &str, category: &str) -> (res: String)
    ensures
        res@ == category_path_text(data_dir@, category@),
{
    join_path(data_dir, category)
}

/// The directory of the sub-category `subcategory` of `category`.
pub fn subcategory_path(data_dir: &str, category: &str, subcategory: &str) -> (res: String)
    ensures
        res@ == subcategory_path_text(data_dir@, category@, subcategory@),
{
    let parent = join_path(data_dir, category);
    join_path(parent.as_str(), subcategory)
}

/// The file name of the note with the given title.
pub fn note_file_name(title: &str) -> (res: String)
    ensures
        res@ == title@ + note_suffix(),
{
    let mut name = String::from_str(title);
    proof {
        reveal_strlit(".json");
        assert(".json"@ =~= note_suffix());
    }
    name.append(".json");
    name
}

/// The file of the note with the given fields under `data_dir`.
pub fn to_path(data_dir: &str, category: &str, subcategory: Option<&str>, title: &str) -> (res:
    String)
    ensures
        res@ == path_text(data_dir@, category@, optional_str_text(subcategory), title@),
{
    let dir = match subcategory {
        Some(sub) => subcategory_path(data_dir, category, sub),
        None => category_path(data_dir, category),
    };
    let name = note_file_name(title);
    join_path(dir.as_str(), name.as_str())
}

/// The title of the note in the file called `name`, if that is a note file.
pub fn note_title(name: &str) -> (res: Option<String>)
    ensures
        optional_text(res) == title_of_file(name@),
{
    let n = name.unicode_len();
    if n <= 5 {
        return None;
    }
    let cut = n - 5;
    let tail = String::from_str(name.substring_char(cut, n));
    let suffix = String::from_str(".json");
    proof {
        reveal_strlit(".json");
        assert(".json"@ =~= note_suffix());
        assert(name@.skip(cut as int) =~= tail@);
    }
    if tail == suffix {
        let title = String::from_str(name.substring_char(0, cut));
        assert(name@.take(cut as int) =~= title@);
        Some(title)
    } else {
        None
    }
}

/// The file name of a note reads back as its title, unless the title is
/// empty.
pub proof fn lemma_title_of_note_file(title: Seq<char>)
    requires
        title.len() > 0,
    ensures
        title_of_file(title + note_suffix()) == Some(title),
{
    let name = title + note_suffix();
    assert(name.skip(title.len() as int) =~= note_suffix());
    assert(name.take(title.len() as int) =~= title);
}

} // verus!
