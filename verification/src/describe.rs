//! The capability contract every renderable value satisfies, and its built-in
//! implementations for scalars, optional values and sequences.
//!
//! Each executable operation is pinned to a specification member: `to_field`
//! returns exactly `spec_to_field`, `describe` appends exactly
//! `spec_describe`, and so on. Generic rendering code is verified against
//! these contracts alone.

use vstd::prelude::*;
use vstd::string::StringExecFns;

use crate::context::Context;

verus! {

/// The tombstone marker written for an absent or empty value.
pub open spec fn tombstone() -> Seq<char> {
    seq!['~']
}

/// A fresh string holding the tombstone marker.
pub fn tombstone_string() -> (r: String)
    ensures
        r@ == tombstone(),
{
    proof {
        reveal_strlit("~");
        assert("~"@ =~= tombstone());
    }
    String::from_str("~")
}

/// The contract a value must satisfy to be rendered.
///
/// A type reports: its text for a (possibly dotted) field path; the column
/// header paths it can produce and the subset shown by default; an optional
/// display-name override per header path; the minimum label width it needs as
/// a nested object; and how it writes itself into the object layout.
pub trait Describe {
    /// What `to_field` returns for a given path.
    spec fn spec_to_field(&self, path: Seq<char>) -> Seq<char>;

    /// What `headers` returns.
    spec fn spec_headers() -> Seq<Seq<char>>;

    /// What `default_headers` returns.
    spec fn spec_default_headers() -> Seq<Seq<char>>;

    /// What `header_name` returns for a given path.
    spec fn spec_header_name(path: Seq<char>) -> Option<Seq<char>>;

    /// What `struct_pad` returns.
    spec fn spec_struct_pad() -> nat;

    /// The layout states from which `describe` can run without panicking.
    spec fn describe_pre(&self, ctx: Context) -> bool;

    /// The text `describe` appends to the sink.
    spec fn spec_describe(&self, ctx: Context) -> Seq<char>;

    /// Resolve a field path against this value: scalars return their own
    /// text form whatever the path; composites split the path at its first
    /// dot and dispatch the remainder to the matching field.
    fn to_field(&self, field_name: &str) -> (r: String)
        ensures
            r@ == self.spec_to_field(field_name@),
    ;

    /// Every column header path this type can produce, in declared order.
    fn headers() -> (r: Vec<String>)
        ensures
            r.deep_view() == Self::spec_headers(),
    ;

    /// The header paths shown when the caller does not pick columns.
    fn default_headers() -> (r: Vec<String>)
        ensures
            r.deep_view() == Self::spec_default_headers(),
    ;

    /// An explicit display label for a header path, or `None` when the caller
    /// should auto-derive one from the path.
    fn header_name(header: &str) -> (r: Option<String>)
        ensures
            r.deep_view() == Self::spec_header_name(header@),
    ;

    /// The minimum label-column width this type needs when rendered as a
    /// nested object.
    fn struct_pad() -> (r: usize)
        ensures
            r as nat == Self::spec_struct_pad(),
    ;

    /// Write this value's object-style representation into the sink.
    fn describe(&self, writer: &mut String, ctx: Context)
        requires
            self.describe_pre(ctx),
        ensures
            final(writer)@ == old(writer)@ + self.spec_describe(ctx),
    ;
}

/// An empty header list, as every leaf type returns it.
pub fn leaf_headers() -> (r: Vec<String>)
    ensures
        r.deep_view() == Seq::<Seq<char>>::empty(),
{
    let r: Vec<String> = Vec::new();
    proof {
        assert(r.deep_view() =~= Seq::<Seq<char>>::empty());
    }
    r
}

impl Describe for String {
    open spec fn spec_to_field(&self, path: Seq<char>) -> Seq<char> {
        self@
    }

    open spec fn spec_headers() -> Seq<Seq<char>> {
        Seq::empty()
    }

    open spec fn spec_default_headers() -> Seq<Seq<char>> {
        Seq::empty()
    }

    open spec fn spec_header_name(path: Seq<char>) -> Option<Seq<char>> {
        None
    }

    open spec fn spec_struct_pad() -> nat {
        0
    }

    open spec fn describe_pre(&self, ctx: Context) -> bool {
        ctx.value_ok()
    }

    open spec fn spec_describe(&self, ctx: Context) -> Seq<char> {
        ctx.value_text(self@)
    }

    fn to_field(&self, field_name: &str) -> (r: String) {
        self.clone()
    }

    fn headers() -> (r: Vec<String>) {
        leaf_headers()
    }

    fn default_headers() -> (r: Vec<String>) {
        leaf_headers()
    }

    fn header_name(header: &str) -> (r: Option<String>) {
        None
    }

    fn struct_pad() -> (r: usize) {
        0
    }

    fn describe(&self, writer: &mut String, ctx: Context) {
        ctx.write_value(writer, self.clone());
    }
}

impl Describe for bool {
    open spec fn spec_to_field(&self, path: Seq<char>) -> Seq<char> {
        if *self {
            seq!['t', 'r', 'u', 'e']
        } else {
            seq!['f', 'a', 'l', 's', 'e']
        }
    }

    open spec fn spec_headers() -> Seq<Seq<char>> {
        Seq::empty()
    }

    open spec fn spec_default_headers() -> Seq<Seq<char>> {
        Seq::empty()
    }

    open spec fn spec_header_name(path: Seq<char>) -> Option<Seq<char>> {
        None
    }

    open spec fn spec_struct_pad() -> nat {
        0
    }

    open spec fn describe_pre(&self, ctx: Context) -> bool {
        ctx.value_ok()
    }

    open spec fn spec_describe(&self, ctx: Context) -> Seq<char> {
        ctx.value_text(self.spec_to_field(Seq::empty()))
    }

    fn to_field(&self, field_name: &str) -> (r: String) {
        proof {
            reveal_strlit("true");
            reveal_strlit("false");
            assert("true"@ =~= seq!['t', 'r', 'u', 'e']);
            assert("false"@ =~= seq!['f', 'a', 'l', 's', 'e']);
        }
        if *self {
            String::from_str("true")
        } else {
            String::from_str("false")
        }
    }

    fn headers() -> (r: Vec<String>) {
        leaf_headers()
    }

    fn default_headers() -> (r: Vec<String>) {
        leaf_headers()
    }

    fn header_name(header: &str) -> (r: Option<String>) {
        None
    }

    fn struct_pad() -> (r: usize) {
        0
    }

    fn describe(&self, writer: &mut String, ctx: Context) {
        let text = self.to_field("");
        ctx.write_value(writer, text);
    }
}

impl<T: Describe> Describe for Option<T> {
    open spec fn spec_to_field(&self, path: Seq<char>) -> Seq<char> {
        match self {
            None => tombstone(),
            Some(v) => v.spec_to_field(path),
        }
    }

    open spec fn spec_headers() -> Seq<Seq<char>> {
        T::spec_headers()
    }

    open spec fn spec_default_headers() -> Seq<Seq<char>> {
        T::spec_headers()
    }

    open spec fn spec_header_name(path: Seq<char>) -> Option<Seq<char>> {
        T::spec_header_name(path)
    }

    open spec fn spec_struct_pad() -> nat {
        0
    }

    open spec fn describe_pre(&self, ctx: Context) -> bool {
        match self {
            None => ctx.value_ok(),
            Some(v) => v.describe_pre(ctx),
        }
    }

    open spec fn spec_describe(&self, ctx: Context) -> Seq<char> {
        match self {
            None => ctx.value_text(tombstone()),
            Some(v) => v.spec_describe(ctx),
        }
    }

    fn to_field(&self, field_name: &str) -> (r: String) {
        match self {
            None => tombstone_string(),
            Some(v) => v.to_field(field_name),
        }
    }

    fn headers() -> (r: Vec<String>) {
        T::headers()
    }

    fn default_headers() -> (r: Vec<String>) {
        T::headers()
    }

    fn header_name(header: &str) -> (r: Option<String>) {
        T::header_name(header)
    }

    fn struct_pad() -> (r: usize) {
        0
    }

    fn describe(&self, writer: &mut String, ctx: Context) {
        match self {
            None => ctx.write_value(writer, tombstone_string()),
            Some(v) => v.describe(writer, ctx),
        }
    }
}

/// The texts of the first `k` elements of a sequence, resolved for `path` and
/// joined with commas.
pub open spec fn joined_fields<T: Describe>(items: Seq<T>, k: int, path: Seq<char>) -> Seq<char>
    decreases k,
{
    if k <= 0 {
        Seq::empty()
    } else if k == 1 {
        items[0].spec_to_field(path)
    } else {
        joined_fields(items, k - 1, path) + seq![','] + items[k - 1].spec_to_field(path)
    }
}

/// The object-layout texts of the first `k` elements of a sequence, each
/// emitted in array mode, concatenated.
pub open spec fn items_text<T: Describe>(items: Seq<T>, k: int, ctx: Context) -> Seq<char>
    decreases k,
{
    if k <= 0 {
        Seq::empty()
    } else {
        items_text(items, k - 1, ctx) + items[k - 1].spec_describe(ctx)
    }
}

impl<T: Describe> Describe for Vec<T> {
    open spec fn spec_to_field(&self, path: Seq<char>) -> Seq<char> {
        joined_fields(self@, self@.len() as int, path)
    }

    open spec fn spec_headers() -> Seq<Seq<char>> {
        Seq::empty()
    }

    open spec fn spec_default_headers() -> Seq<Seq<char>> {
        Seq::empty()
    }

    open spec fn spec_header_name(path: Seq<char>) -> Option<Seq<char>> {
        None
    }

    open spec fn spec_struct_pad() -> nat {
        0
    }

    open spec fn describe_pre(&self, ctx: Context) -> bool {
        if self@.len() == 0 {
            ctx.value_ok()
        } else {
            ctx.offset >= 2 && forall|i: int|
                0 <= i < self@.len() ==> #[trigger] self@[i].describe_pre(ctx.spec_array())
        }
    }

    open spec fn spec_describe(&self, ctx: Context) -> Seq<char> {
        if self@.len() == 0 {
            ctx.value_text(tombstone())
        } else {
            items_text(self@, self@.len() as int, ctx.spec_array())
        }
    }

    fn to_field(&self, field_name: &str) -> (r: String) {
        let mut out = String::new();
        let mut i: usize = 0;
        proof {
            reveal_strlit(",");
        }
        while i < self.len()
            invariant
                i <= self@.len(),
                out@ == joined_fields(self@, i as int, field_name@),
            decreases self@.len() - i,
        {
            if i > 0 {
                out.append(",");
            }
            let cell = self[i].to_field(field_name);
            out.append(cell.as_str());
            proof {
                reveal_strlit(",");
                if i == 0 {
                    assert(out@ =~= joined_fields(self@, (i + 1) as int, field_name@));
                } else {
                    assert(out@ =~= joined_fields(self@, (i + 1) as int, field_name@));
                }
            }
            i = i + 1;
        }
        out
    }

    fn headers() -> (r: Vec<String>) {
        leaf_headers()
    }

    fn default_headers() -> (r: Vec<String>) {
        leaf_headers()
    }

    fn header_name(header: &str) -> (r: Option<String>) {
        None
    }

    fn struct_pad() -> (r: usize) {
        0
    }

    fn describe(&self, writer: &mut String, ctx: Context) {
        if self.len() == 0 {
            ctx.write_value(writer, tombstone_string());
        } else {
            let actx = ctx.array();
            let mut i: usize = 0;
            proof {
                assert(old(writer)@ + items_text(self@, 0, actx) =~= old(writer)@);
            }
            while i < self.len()
                invariant
                    i <= self@.len(),
                    actx == ctx.spec_array(),
                    self@.len() > 0,
                    forall|j: int|
                        0 <= j < self@.len() ==> #[trigger] self@[j].describe_pre(ctx.spec_array()),
                    writer@ == old(writer)@ + items_text(self@, i as int, actx),
                decreases self@.len() - i,
            {
                self[i].describe(writer, actx);
                proof {
                    assert(writer@ =~= old(writer)@ + items_text(self@, (i + 1) as int, actx));
                }
                i = i + 1;
            }
        }
    }
}

/// Optional wrapping is transparent to header derivation: an optional value
/// offers exactly the header paths, default header paths, and display-name
/// overrides of the wrapped type.
pub proof fn lemma_optional_headers_transparent<T: Describe>(path: Seq<char>)
    ensures
        <Option<T> as Describe>::spec_headers() == T::spec_headers(),
        <Option<T> as Describe>::spec_default_headers() == T::spec_headers(),
        <Option<T> as Describe>::spec_header_name(path) == T::spec_header_name(path),
{
}


/// Header derivation is stable: any two calls of `headers` on one type agree,
/// because each returns the type's one header specification.
pub proof fn lemma_headers_stable<T: Describe>(a: Vec<String>, b: Vec<String>)
    requires
        a.deep_view() == T::spec_headers(),
        b.deep_view() == T::spec_headers(),
    ensures
        a.deep_view() == b.deep_view(),
{
}


/// An empty sequence renders as the tombstone marker; a non-empty one renders
/// one block per element, in order, each in array mode.
pub proof fn lemma_sequence_blocks<T: Describe>(v: Vec<T>, ctx: Context)
    ensures
        v@.len() == 0 ==> v.spec_describe(ctx) == ctx.value_text(tombstone()),
        v@.len() > 0 ==> v.spec_describe(ctx) == items_text(
            v@,
            v@.len() as int,
            ctx.spec_array(),
        ),
{
}

} // verus!
