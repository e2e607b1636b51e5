//! The classifier: one record in, one batch of field results out.

use vstd::prelude::*;
use crate::category::Category;
use crate::json::{member, member_of, parse_json, parsed, FieldShape, JsonField};
use crate::numeric::{is_numeric, is_numeric_text};

verus! {

/// One input line together with the field names to inspect in it.
pub struct Record {
    pub line: String,
    pub keys: Vec<String>,
}

/// A field name paired with the category its value took in one record.
#[derive(Clone, Debug)]
pub struct FieldResult {
    pub key: String,
    pub category: Category,
}

/// The mathematical view of one batch slot.
pub type Slot = Option<(Seq<char>, Category)>;

pub open spec fn slot_view(o: Option<FieldResult>) -> Slot {
    match o {
        Some(f) => Some((f.key@, f.category)),
        None => None,
    }
}

pub open spec fn batch_view(b: Seq<Option<FieldResult>>) -> Seq<Slot> {
    b.map_values(|o: Option<FieldResult>| slot_view(o))
}

/// The texts of a sequence of strings.
pub open spec fn strings_view(v: Seq<String>) -> Seq<Seq<char>> {
    v.map_values(|s: String| s@)
}

/// The category of a field's value.
pub open spec fn category_of(f: FieldShape) -> Category {
    match f {
        FieldShape::Missing => Category::Absent,
        FieldShape::Null => Category::Absent,
        FieldShape::Bool => Category::Boolean,
        FieldShape::Number => Category::Number,
        FieldShape::Str(s) => if is_numeric_text(s) {
            Category::NumericString
        } else {
            Category::String
        },
        FieldShape::Array => Category::Array,
        FieldShape::Object => Category::Object,
    }
}

/// The slot for a field: nothing where it is absent.
pub open spec fn slot_of(key: Seq<char>, c: Category) -> Slot {
    if c == Category::Absent {
        None
    } else {
        Some((key, c))
    }
}

/// The batch that classifying `line` against `keys` yields: empty where the
/// line is not JSON, else one slot per requested name, in the given order.
pub open spec fn batch_of(line: Seq<char>, keys: Seq<Seq<char>>) -> Seq<Slot> {
    match parsed(line) {
        None => Seq::empty(),
        Some(doc) => keys.map_values(|k: Seq<char>| slot_of(k, category_of(member_of(doc, k)))),
    }
}

/// The batches for a sequence of lines, one per line, in order.
pub open spec fn batches_of(lines: Seq<Seq<char>>, keys: Seq<Seq<char>>) -> Seq<Seq<Slot>> {
    lines.map_values(|l: Seq<char>| batch_of(l, keys))
}

/// The category of a member value.
pub fn categorize(f: &JsonField) -> (r: Category)
    ensures
        r == category_of(f@),
{
    match f {
        JsonField::Missing => Category::Absent,
        JsonField::Null => Category::Absent,
        JsonField::Bool => Category::Boolean,
        JsonField::Number => Category::Number,
        JsonField::Str(s) => if is_numeric(s.as_str()) {
            Category::NumericString
        } else {
            Category::String
        },
        JsonField::Array => Category::Array,
        JsonField::Object => Category::Object,
    }
}

/// Classifies one line against the requested field names. A line that is
/// not JSON yields an empty batch and is otherwise dropped without notice;
/// a JSON value that is not an object yields an empty slot for every name.
pub fn classify_line(line: &str, keys: &Vec<String>) -> (r: Vec<Option<FieldResult>>)
    ensures
        batch_view(r@) == batch_of(line@, strings_view(keys@)),
{
    let ghost ks = strings_view(keys@);
    let mut out: Vec<Option<FieldResult>> = Vec::new();
    match parse_json(line) {
        None => {
            proof {
                assert(batch_view(out@) =~= Seq::<Slot>::empty());
            }
            out
        },
        Some(doc) => {
            let ghost want = ks.map_values(
                |k: Seq<char>| slot_of(k, category_of(member_of(doc, k))),
            );
            let mut i: usize = 0;
            while i < keys.len()
                invariant
                    0 <= i <= keys@.len(),
                    ks == strings_view(keys@),
                    want == ks.map_values(
                        |k: Seq<char>| slot_of(k, category_of(member_of(doc, k))),
                    ),
                    batch_view(out@) =~= want.subrange(0, i as int),
                decreases keys@.len() - i,
            {
                let key = &keys[i];
                let c = categorize(&member(&doc, key.as_str()));
                let slot = if c == Category::Absent {
                    None
                } else {
                    Some(FieldResult { key: key.clone(), category: c })
                };
                let ghost before = out@;
                out.push(slot);
                proof {
                    assert(batch_view(out@) =~= batch_view(before).push(slot_view(slot)));
                }
                i = i + 1;
            }
            out
        },
    }
}

impl Record {
    /// Classifies this record: the batch of `classify_line` on its line and
    /// field names.
    pub fn classify(&self) -> (r: Vec<Option<FieldResult>>)
        ensures
            batch_view(r@) == batch_of(self.line@, strings_view(self.keys@)),
    {
        classify_line(self.line.as_str(), &self.keys)
    }
}

} // verus!
