//! Render structured, nested data (records, optional values, sequences,
//! string-keyed maps, scalars) into two human-readable textual layouts: an
//! indented "object" view and a column-aligned "table" view.
//!
//! Every rendering rule is stated as a specification and proved: the layout
//! context transforms, the label padding rules, the dotted-path field
//! resolution, and the table column sizing (which ignores terminal escape
//! sequences when measuring cell text).

pub mod ansi;
pub mod casing;
pub mod context;
pub mod describe;
pub mod map;
pub mod numbers;
pub mod record;
pub mod shape;
pub mod table;
pub mod text;
pub mod timestamp;

pub use context::Context;
pub use describe::Describe;
pub use map::StringMap;
pub use record::Datum;
pub use record::Record;
pub use record::RecordList;
pub use shape::FieldShape;
pub use shape::RecordShape;
pub use shape::Shape;
pub use table::Describer;
pub use text::get_keys;
pub use timestamp::Timestamp;

use vstd::prelude::*;

verus! {

/// Render one item into the object layout and return the text: the item's
/// object representation followed by one newline.
pub fn object_describe_to_string<T: Describe>(object: &T) -> (r: String)
    requires
        object.describe_pre(Context::start()),
    ensures
        r@ == object.spec_describe(Context::start()) + seq!['\n'],
{
    let mut out = String::new();
    Describer::describe_object(object, &mut out, Context::default());
    proof {
        assert(out@ =~= object.spec_describe(Context::start()) + seq!['\n']);
    }
    out
}

/// Render one item into the object layout, appending to the given sink.
pub fn object_describe<T: Describe>(object: &T, writer: &mut String)
    requires
        object.describe_pre(Context::start()),
    ensures
        final(writer)@ == old(writer)@ + object.spec_describe(Context::start()) + seq!['\n'],
{
    Describer::describe_object(object, writer, Context::default());
}

/// Render a list of items as a table with the type's default headers and
/// return the text.
pub fn table_describe_to_string<T: Describe>(data: &Vec<T>) -> (r: String)
    ensures
        r@ == table::spec_list_text::<T>(data@, Seq::empty(), 0) + seq!['\n'],
{
    let mut out = String::new();
    Describer::describe_list(data, &mut out, Context::default());
    proof {
        assert(out@ =~= table::spec_list_text::<T>(data@, Seq::empty(), 0) + seq!['\n']);
    }
    out
}

/// Render a list of items as a table with the given header paths (the type's
/// default headers when none are given) and return the text.
pub fn table_describe_with_header_to_string<T: Describe>(
    data: &Vec<T>,
    headers: &Vec<String>,
) -> (r: String)
    ensures
        r@ == table::spec_list_text::<T>(data@, headers.deep_view(), 0) + seq!['\n'],
{
    let mut out = String::new();
    Describer::describe_list_with_header(data, headers, &mut out, Context::default());
    proof {
        assert(out@ =~= table::spec_list_text::<T>(data@, headers.deep_view(), 0) + seq!['\n']);
    }
    out
}

/// Render a list of items as a table with the given header paths, appending
/// to the given sink.
pub fn table_describe<T: Describe>(data: &Vec<T>, headers: &Vec<String>, writer: &mut String)
    ensures
        final(writer)@ == old(writer)@ + table::spec_list_text::<T>(data@, headers.deep_view(), 0)
            + seq!['\n'],
{
    Describer::describe_list_with_header(data, headers, writer, Context::default());
}

} // verus!
