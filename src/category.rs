//! The closed set of value shapes a top-level field can take.

use vstd::prelude::*;

verus! {

/// The shape of one field's value in one record.
#[derive(Clone, Copy, Debug, PartialEq, Eq, Structural, Hash)]
pub enum Category {
    String,
    Number,
    /// A string whose text is a decimal number literal.
    NumericString,
    Array,
    Boolean,
    Object,
    /// The field is missing or holds `null`.
    Absent,
}

/// The human-readable name of a category.
pub open spec fn label_of(c: Category) -> Seq<char> {
    match c {
        Category::String => "String"@,
        Category::Number => "Number"@,
        Category::NumericString => "CastableStringToNumber"@,
        Category::Array => "Array"@,
        Category::Boolean => "Bool"@,
        Category::Object => "JSON"@,
        Category::Absent => "Does not exist"@,
    }
}

impl Category {
    /// The name under which the category is shown to a reader.
    pub fn label(&self) -> (r: &'static str)
        ensures
            r@ == label_of(*self),
    {
        match self {
            Category::String => "String",
            Category::Number => "Number",
            Category::NumericString => "CastableStringToNumber",
            Category::Array => "Array",
            Category::Boolean => "Bool",
            Category::Object => "JSON",
            Category::Absent => "Does not exist",
        }
    }
}

} // verus!
