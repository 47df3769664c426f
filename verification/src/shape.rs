//! The declared shape of renderable data: which fields a composite has, in
//! which order, with which display labels and per-field directives. Shapes
//! are registered once per data kind and drive header derivation, label
//! padding and dotted-path resolution; the values themselves live in the
//! record module.

use vstd::prelude::*;
use vstd::string::StrSliceExecFns;
use vstd::string::StringExecFns;

use crate::text::dotless;

verus! {

/// One declared field of a composite: its path segment, its display label,
/// the shape of its value, and its directives.
pub struct FieldShape {
    /// The path segment naming this field in header paths and `to_field`.
    pub name: String,
    /// The display label written in the object layout (conventionally the
    /// name in title case).
    pub label: String,
    /// The shape of the field's value.
    pub child: Shape,
    /// Inline the child's fields at this record's own level and label column.
    pub flatten: bool,
    /// Leave this field out of the default header list (it stays selectable).
    pub skip_header: bool,
    /// Leave this field out of the object layout.
    pub skip_describe: bool,
    /// Render the (sequence) child as an embedded table.
    pub embed_table: bool,
    /// Appended computed fields: their headers join the record's own,
    /// unprefixed, and unmatched paths fall through to them.
    pub extra: bool,
    /// An explicit display label for this field's header column.
    pub rename: Option<String>,
}

/// The shape of a renderable value.
pub enum Shape {
    /// A scalar: one text, no headers of its own.
    Leaf,
    /// An optional value; absence renders as the tombstone marker.
    Optional(Box<Shape>),
    /// A sequence of values of one shape.
    Listing(Box<Shape>),
    /// A string-keyed map of values of one shape.
    Mapping(Box<Shape>),
    /// A composite with declared fields.
    Composite(RecordShape),
}

/// The declared field list of a composite, and its optional fixed default
/// header list.
pub struct RecordShape {
    pub fields: Vec<FieldShape>,
    /// When set, exactly these paths are the default headers.
    pub header_override: Option<Vec<String>>,
}

/// The header paths of a shape: a composite concatenates, in declared order,
/// each field's contribution; every other shape (a leaf, a sequence, a map)
/// offers none, and an optional value offers the wrapped shape's.
pub open spec fn headers_of(s: Shape) -> Seq<Seq<char>>
    decreases s, 0int, 0int,
{
    match s {
        Shape::Leaf => Seq::empty(),
        Shape::Optional(b) => headers_of(*b),
        Shape::Listing(_) => Seq::empty(),
        Shape::Mapping(_) => Seq::empty(),
        Shape::Composite(rs) => rec_headers(rs.fields@, rs.fields@.len() as int),
    }
}

/// The header paths a field contributes: its child's default headers, each
/// prefixed with `"<name>."`; a field whose child offers none contributes its
/// bare name; appended computed fields contribute their headers unprefixed.
pub open spec fn field_headers(f: FieldShape) -> Seq<Seq<char>>
    decreases f, 0int, 0int,
{
    let ch = default_headers_of(f.child);
    if f.extra {
        ch
    } else if ch.len() == 0 {
        seq![f.name@]
    } else {
        ch.map_values(|x: Seq<char>| f.name@ + seq!['.'] + x)
    }
}

/// The concatenated header contributions of the first `k` fields.
pub open spec fn rec_headers(fields: Seq<FieldShape>, k: int) -> Seq<Seq<char>>
    decreases fields, 1int, k,
{
    if k <= 0 || k > fields.len() {
        Seq::empty()
    } else {
        rec_headers(fields, k - 1) + field_headers(fields[k - 1])
    }
}

/// `x` is the bare name of a field marked out of the default headers.
pub open spec fn is_skipped_name(fields: Seq<FieldShape>, x: Seq<char>) -> bool {
    exists|i: int| 0 <= i < fields.len() && (#[trigger] fields[i]).skip_header && fields[i].name@ == x
}

/// The default header paths of a shape: its declared override when it has
/// one, else its headers with the bare names of suppressed fields removed.
pub open spec fn default_headers_of(s: Shape) -> Seq<Seq<char>>
    decreases s, 1int, 0int,
{
    match s {
        Shape::Leaf => Seq::empty(),
        Shape::Optional(b) => headers_of(*b),
        Shape::Listing(_) => Seq::empty(),
        Shape::Mapping(_) => Seq::empty(),
        Shape::Composite(rs) => match rs.header_override {
            Some(hs) => hs.deep_view(),
            None => drop_skipped(
                rec_headers(rs.fields@, rs.fields@.len() as int),
                rs.fields@,
                rec_headers(rs.fields@, rs.fields@.len() as int).len() as int,
            ),
        },
    }
}

/// The first `k` of the given header paths, without those that are the bare
/// name of a suppressed field.
pub open spec fn drop_skipped(hs: Seq<Seq<char>>, fields: Seq<FieldShape>, k: int) -> Seq<Seq<char>>
    decreases k,
{
    if k <= 0 || k > hs.len() {
        Seq::empty()
    } else {
        drop_skipped(hs, fields, k - 1) + (if is_skipped_name(fields, hs[k - 1]) {
            Seq::empty()
        } else {
            seq![hs[k - 1]]
        })
    }
}

/// The first field carrying a given path segment.
pub open spec fn find_field(fields: Seq<FieldShape>, name: Seq<char>) -> Option<int>
    decreases fields.len(),
{
    if fields.len() == 0 {
        None
    } else if fields[0].name@ == name {
        Some(0int)
    } else {
        match find_field(fields.drop_first(), name) {
            None => None,
            Some(i) => Some(i + 1),
        }
    }
}

/// The display-name override of a header path: a composite splits the path,
/// answers a declared rename of the matching field, else asks the field's own
/// shape about the rest of the path; an optional value delegates; everything
/// else has no override.
pub open spec fn header_name_of(s: Shape, path: Seq<char>) -> Option<Seq<char>>
    decreases s, 0int,
{
    match s {
        Shape::Leaf => None,
        Shape::Optional(b) => header_name_of(*b, path),
        Shape::Listing(_) => None,
        Shape::Mapping(_) => None,
        Shape::Composite(rs) => fields_header_name(
            rs.fields@,
            crate::text::path_head(path),
            crate::text::path_tail(path),
        ),
    }
}

/// Scan the fields for the path's head segment: the first match answers its
/// declared rename, or asks its own shape about the rest of the path.
pub open spec fn fields_header_name(
    fields: Seq<FieldShape>,
    h: Seq<char>,
    t: Seq<char>,
) -> Option<Seq<char>>
    decreases fields, 1int,
{
    if fields.len() == 0 {
        None
    } else if fields[0].name@ == h {
        match fields[0].rename {
            Some(n) => Some(n@),
            None => header_name_of(fields[0].child, t),
        }
    } else {
        fields_header_name(fields.drop_first(), h, t)
    }
}

/// The widest display label among the first `k` fields, appended computed
/// fields not counted.
pub open spec fn base_label_max(fields: Seq<FieldShape>, k: int) -> nat
    decreases k,
{
    if k <= 0 {
        0
    } else {
        let m = base_label_max(fields, k - 1);
        if !fields[k - 1].extra && fields[k - 1].label@.len() > m {
            fields[k - 1].label@.len()
        } else {
            m
        }
    }
}

/// Whether any of the first `k` fields counts toward the label column
/// (appended computed fields do not).
pub open spec fn has_own_field(fields: Seq<FieldShape>, k: int) -> bool {
    exists|i: int| 0 <= i < k && !(#[trigger] fields[i]).extra
}

/// The label-column floor a record's own labels ask for: the widest label
/// plus one, or zero for a record with no own fields.
pub open spec fn base_pad(fields: Seq<FieldShape>, k: int) -> nat {
    if has_own_field(fields, k) {
        base_label_max(fields, k) + 1
    } else {
        0
    }
}

/// The label-column width a shape needs as a nested object: a composite needs
/// its own labels' floor, raised to the need of every field inlined into it.
pub open spec fn struct_pad_of(s: Shape) -> nat
    decreases s, 0int, 0int,
{
    match s {
        Shape::Composite(rs) => flat_pad(rs.fields@, rs.fields@.len() as int),
        _ => 0,
    }
}

/// The pad of the first `k` fields: the own-label floor of the whole record,
/// raised to the pad of each inlined (flattened) child among the first `k`.
pub open spec fn flat_pad(fields: Seq<FieldShape>, k: int) -> nat
    decreases fields, 1int, k,
{
    if k <= 0 || k > fields.len() {
        base_pad(fields, fields.len() as int)
    } else {
        let prev = flat_pad(fields, k - 1);
        let f = fields[k - 1];
        if f.flatten && !f.extra && struct_pad_of(f.child) > prev {
            struct_pad_of(f.child)
        } else {
            prev
        }
    }
}

/// How deep a shape nests.
pub open spec fn height_of(s: Shape) -> nat
    decreases s, 0int, 0int,
{
    match s {
        Shape::Leaf => 1,
        Shape::Optional(b) => height_of(*b) + 1,
        Shape::Listing(b) => height_of(*b) + 1,
        Shape::Mapping(b) => height_of(*b) + 1,
        Shape::Composite(rs) => fields_height(rs.fields@, rs.fields@.len() as int) + 1,
    }
}

/// The greatest height among the first `k` fields' children.
pub open spec fn fields_height(fields: Seq<FieldShape>, k: int) -> nat
    decreases fields, 1int, k,
{
    if k <= 0 || k > fields.len() {
        0
    } else {
        let m = fields_height(fields, k - 1);
        if height_of(fields[k - 1].child) > m {
            height_of(fields[k - 1].child)
        } else {
            m
        }
    }
}

/// A shape is fit for rendering: field names carry no dot, a flattened or
/// appended field inlines a composite, an embedded table renders a sequence,
/// and every label column fits the machine.
pub open spec fn shape_ok(s: Shape) -> bool
    decreases s, 0int, 0int,
{
    match s {
        Shape::Leaf => true,
        Shape::Optional(b) => shape_ok(*b),
        Shape::Listing(b) => shape_ok(*b),
        Shape::Mapping(b) => shape_ok(*b),
        Shape::Composite(rs) => {
            &&& struct_pad_of(s) <= usize::MAX
            &&& forall|i: int|
                0 <= i < rs.fields@.len() ==> field_ok(#[trigger] rs.fields@[i])
        },
    }
}

/// A field is fit for rendering (see `shape_ok`).
pub open spec fn field_ok(f: FieldShape) -> bool
    decreases f, 1int, 0int,
{
    &&& shape_ok(f.child)
    &&& dotless(f.name@)
    &&& (f.flatten ==> f.child is Composite)
    &&& (f.extra ==> f.child is Composite && !f.flatten && !f.embed_table && !f.skip_header)
    &&& (f.embed_table ==> f.child is Listing)
}

/// Every field label asks for strictly less room than the record's own
/// floor, once any field counts.
pub proof fn lemma_base_label_bound(fields: Seq<FieldShape>, k: int, j: int)
    requires
        0 <= j < k,
        !fields[j].extra,
    ensures
        fields[j].label@.len() < base_pad(fields, k),
    decreases k,
{
    assert(has_own_field(fields, k));
    lemma_base_label_max_bound(fields, k, j);
}

proof fn lemma_base_label_max_bound(fields: Seq<FieldShape>, k: int, j: int)
    requires
        0 <= j < k,
        !fields[j].extra,
    ensures
        fields[j].label@.len() <= base_label_max(fields, k),
    decreases k,
{
    if j < k - 1 {
        lemma_base_label_max_bound(fields, k - 1, j);
    }
}

/// The record's pad never falls below its own floor, nor below any inlined
/// child's pad.
pub proof fn lemma_flat_pad_bounds(fields: Seq<FieldShape>, k: int)
    requires
        0 <= k <= fields.len(),
    ensures
        flat_pad(fields, k) >= base_pad(fields, fields.len() as int),
        forall|j: int|
            0 <= j < k && (#[trigger] fields[j]).flatten && !fields[j].extra ==> flat_pad(fields, k)
                >= struct_pad_of(fields[j].child),
    decreases k,
{
    if k > 0 {
        lemma_flat_pad_bounds(fields, k - 1);
    }
}


/// Whether `x` is the bare name of a suppressed field.
#[verifier::loop_isolation(false)]
fn is_skipped(fields: &Vec<FieldShape>, x: &str) -> (r: bool)
    ensures
        r == is_skipped_name(fields@, x@),
{
    let mut i: usize = 0;
    while i < fields.len()
        invariant
            0 <= i <= fields@.len(),
            forall|j: int|
                0 <= j < i ==> !((#[trigger] fields@[j]).skip_header && fields@[j].name@ == x@),
        decreases fields@.len() - i,
    {
        if fields[i].skip_header && crate::text::str_eq(fields[i].name.as_str(), x) {
            return true;
        }
        i = i + 1;
    }
    false
}

/// The header paths of a shape, as `headers()` of a composite returns them.
#[verifier::loop_isolation(false)]
pub fn shape_headers(s: &Shape) -> (r: Vec<String>)
    ensures
        r.deep_view() == headers_of(*s),
    decreases *s, 0int, 0int,
{
    match s {
        Shape::Leaf | Shape::Listing(_) | Shape::Mapping(_) => {
            let v: Vec<String> = Vec::new();
            proof {
                assert(v.deep_view() =~~= headers_of(*s));
            }
            v
        },
        Shape::Optional(b) => {
            let v = shape_headers(&**b);
            v
        },
        Shape::Composite(rs) => {
            let mut out: Vec<String> = Vec::new();
            let mut i: usize = 0;
            proof {
                assert(out.deep_view() =~~= rec_headers(rs.fields@, 0));
            }
            while i < rs.fields.len()
                invariant
                    0 <= i <= rs.fields@.len(),
                    out.deep_view() =~~= rec_headers(rs.fields@, i as int),
                decreases rs.fields@.len() - i,
            {
                let ghost f = rs.fields@[i as int];
                let ch = shape_default_headers(&rs.fields[i].child);
                let ghost seg = field_headers(f);
                if rs.fields[i].extra {
                    let mut j: usize = 0;
                    while j < ch.len()
                        invariant
                            0 <= j <= ch@.len(),
                            f == rs.fields@[i as int],
                            rs.fields@[i as int].extra,
                            ch.deep_view() == default_headers_of(f.child),
                            seg == field_headers(f),
                            out.deep_view() =~~= rec_headers(rs.fields@, i as int) + seg.subrange(
                                0,
                                j as int,
                            ),
                        decreases ch@.len() - j,
                    {
                        let ghost dv0 = out.deep_view();
                        let ghost n0 = out@.len();
                        out.push(ch[j].clone());
                        proof {
                            assert(ch.deep_view()[j as int] == ch@[j as int]@);
                            assert(seg[j as int] == ch.deep_view()[j as int]);
                            let rhs = rec_headers(rs.fields@, i as int) + seg.subrange(
                                0,
                                j as int + 1,
                            );
                            assert forall|p: int| 0 <= p < out.deep_view().len() implies out.deep_view()[p]
                                == rhs[p] by {
                                assert(out.deep_view()[p] == out@[p].deep_view());
                                if p < n0 {
                                    assert(out@[p].deep_view() == dv0[p]);
                                    assert(dv0[p] == rhs[p]);
                                } else {
                                    assert(out@[p] == ch@[j as int]);
                                }
                            }
                            assert(out.deep_view() =~~= rhs);
                        }
                        j = j + 1;
                    }
                } else if ch.len() == 0 {
                    out.push(rs.fields[i].name.clone());
                    proof {
                        assert(seg =~~= seq![f.name@]);
                        assert(out.deep_view() =~~= rec_headers(rs.fields@, i as int) + seg.subrange(
                            0,
                            seg.len() as int,
                        ));
                    }
                } else {
                    let mut j: usize = 0;
                    proof {
                        reveal_strlit(".");
                    }
                    while j < ch.len()
                        invariant
                            0 <= j <= ch@.len(),
                            f == rs.fields@[i as int],
                            !rs.fields@[i as int].extra,
                            ch.deep_view() == default_headers_of(f.child),
                            ch@.len() > 0,
                            seg == field_headers(f),
                            out.deep_view() =~~= rec_headers(rs.fields@, i as int) + seg.subrange(
                                0,
                                j as int,
                            ),
                        decreases ch@.len() - j,
                    {
                        let mut path = rs.fields[i].name.clone();
                        path.append(".");
                        path.append(ch[j].as_str());
                        proof {
                            reveal_strlit(".");
                            assert(ch.deep_view()[j as int] == ch@[j as int]@);
                            assert(path@ =~= f.name@ + seq!['.'] + ch.deep_view()[j as int]);
                            assert(seg[j as int] == f.name@ + seq!['.'] + default_headers_of(
                                f.child,
                            )[j as int]);
                        }
                        let ghost dv0 = out.deep_view();
                        let ghost n0 = out@.len();
                        let ghost pathview = path@;
                        out.push(path);
                        proof {
                            assert(seg.len() == default_headers_of(f.child).len());
                            let rhs = rec_headers(rs.fields@, i as int) + seg.subrange(
                                0,
                                j as int + 1,
                            );
                            assert forall|p: int| 0 <= p < out.deep_view().len() implies out.deep_view()[p]
                                == rhs[p] by {
                                assert(out.deep_view()[p] == out@[p].deep_view());
                                if p < n0 {
                                    assert(out@[p].deep_view() == dv0[p]);
                                    assert(dv0[p] == rhs[p]);
                                } else {
                                    assert(out@[p]@ == pathview);
                                    assert(rhs[p] == seg[j as int]);
                                }
                            }
                            assert(out.deep_view() =~~= rhs);
                        }
                        j = j + 1;
                    }
                }
                proof {
                    assert(seg.subrange(0, seg.len() as int) =~~= seg);
                    assert(out.deep_view() =~~= rec_headers(rs.fields@, i as int + 1));
                }
                i = i + 1;
            }
            out
        },
    }
}

/// The default header paths of a shape, as `default_headers()` returns them.
#[verifier::loop_isolation(false)]
pub fn shape_default_headers(s: &Shape) -> (r: Vec<String>)
    ensures
        r.deep_view() == default_headers_of(*s),
    decreases *s, 1int, 0int,
{
    match s {
        Shape::Leaf | Shape::Listing(_) | Shape::Mapping(_) => {
            let v: Vec<String> = Vec::new();
            proof {
                assert(v.deep_view() =~= default_headers_of(*s));
            }
            v
        },
        Shape::Optional(b) => {
            let v = shape_headers(&**b);
            v
        },
        Shape::Composite(rs) => {
            match &rs.header_override {
                Some(hs) => {
                    let mut out: Vec<String> = Vec::new();
                    let mut i: usize = 0;
                    while i < hs.len()
                        invariant
                            0 <= i <= hs@.len(),
                            out.deep_view() =~= hs.deep_view().subrange(0, i as int),
                        decreases hs@.len() - i,
                    {
                        out.push(hs[i].clone());
                        proof {
                            assert(out.deep_view() =~= hs.deep_view().subrange(0, i as int + 1));
                        }
                        i = i + 1;
                    }
                    proof {
                        assert(hs.deep_view().subrange(0, hs@.len() as int) =~= hs.deep_view());
                    }
                    out
                },
                None => {
                    let all = shape_headers(s);
                    let ghost hsv = all.deep_view();
                    let mut out: Vec<String> = Vec::new();
                    let mut i: usize = 0;
                    proof {
                        assert(hsv == rec_headers(rs.fields@, rs.fields@.len() as int));
                        assert(out.deep_view() =~= drop_skipped(hsv, rs.fields@, 0));
                    }
                    while i < all.len()
                        invariant
                            0 <= i <= all@.len(),
                            hsv == all.deep_view(),
                            hsv == rec_headers(rs.fields@, rs.fields@.len() as int),
                            out.deep_view() =~= drop_skipped(hsv, rs.fields@, i as int),
                        decreases all@.len() - i,
                    {
                        proof {
                            assert(hsv[i as int] == all@[i as int]@);
                        }
                        if !is_skipped(&rs.fields, all[i].as_str()) {
                            out.push(all[i].clone());
                        }
                        proof {
                            assert(out.deep_view() =~= drop_skipped(hsv, rs.fields@, i as int + 1));
                        }
                        i = i + 1;
                    }
                    out
                },
            }
        },
    }
}

/// The display-name override of a header path, as `header_name()` returns it.
#[verifier::loop_isolation(false)]
pub fn shape_header_name(s: &Shape, path: &str) -> (r: Option<String>)
    ensures
        r.deep_view() == header_name_of(*s, path@),
    decreases *s, 0int,
{
    match s {
        Shape::Leaf | Shape::Listing(_) | Shape::Mapping(_) => None,
        Shape::Optional(b) => shape_header_name(&**b, path),
        Shape::Composite(rs) => {
            let (h, t) = crate::text::get_keys(path);
            let mut i: usize = 0;
            proof {
                assert(rs.fields@.skip(0) =~= rs.fields@);
            }
            while i < rs.fields.len()
                invariant
                    0 <= i <= rs.fields@.len(),
                    h@ == crate::text::path_head(path@),
                    t@ == crate::text::path_tail(path@),
                    forall|j: int| 0 <= j < i ==> (#[trigger] rs.fields@[j]).name@ != h@,
                    fields_header_name(rs.fields@, h@, t@) == fields_header_name(
                        rs.fields@.skip(i as int),
                        h@,
                        t@,
                    ),
                decreases rs.fields@.len() - i,
            {
                proof {
                    assert(rs.fields@.skip(i as int)[0] == rs.fields@[i as int]);
                }
                if crate::text::str_eq(rs.fields[i].name.as_str(), h) {
                    match &rs.fields[i].rename {
                        Some(n) => {
                            return Some(n.clone());
                        },
                        None => {
                            let r = shape_header_name(&rs.fields[i].child, t);
                            return r;
                        },
                    }
                }
                proof {
                    assert(rs.fields@.skip(i as int).drop_first() =~= rs.fields@.skip(i as int + 1));
                }
                i = i + 1;
            }
            proof {
                assert(rs.fields@.skip(rs.fields@.len() as int).len() == 0);
            }
            None
        },
    }
}

/// The label-column width a shape needs, as `struct_pad()` returns it.
#[verifier::loop_isolation(false)]
pub fn shape_struct_pad(s: &Shape) -> (r: usize)
    requires
        shape_ok(*s),
    ensures
        r as nat == struct_pad_of(*s),
    decreases *s, 0int, 0int,
{
    match s {
        Shape::Leaf | Shape::Optional(_) | Shape::Listing(_) | Shape::Mapping(_) => 0,
        Shape::Composite(rs) => {
            let mut widest: usize = 0;
            let mut any_own: bool = false;
            let mut i: usize = 0;
            while i < rs.fields.len()
                invariant
                    0 <= i <= rs.fields@.len(),
                    widest as nat == base_label_max(rs.fields@, i as int),
                    any_own == has_own_field(rs.fields@, i as int),
                decreases rs.fields@.len() - i,
            {
                if !rs.fields[i].extra {
                    any_own = true;
                    let l = rs.fields[i].label.as_str().unicode_len();
                    if l > widest {
                        widest = l;
                    }
                }
                proof {
                    if any_own {
                        assert(has_own_field(rs.fields@, i as int + 1));
                    }
                }
                i = i + 1;
            }
            let mut pad: usize;
            if any_own {
                proof {
                    lemma_flat_pad_bounds(rs.fields@, rs.fields@.len() as int);
                    assert(base_pad(rs.fields@, rs.fields@.len() as int) <= struct_pad_of(*s));
                }
                pad = widest + 1;
            } else {
                pad = 0;
            }
            proof {
                assert(pad as nat == base_pad(rs.fields@, rs.fields@.len() as int));
                assert(pad as nat == flat_pad(rs.fields@, 0));
            }
            let mut k: usize = 0;
            while k < rs.fields.len()
                invariant
                    0 <= k <= rs.fields@.len(),
                    shape_ok(*s),
                    pad as nat == flat_pad(rs.fields@, k as int),
                decreases rs.fields@.len() - k,
            {
                proof {
                    assert(field_ok(rs.fields@[k as int]));
                }
                if rs.fields[k].flatten && !rs.fields[k].extra {
                    let child_pad = shape_struct_pad(&rs.fields[k].child);
                    if child_pad > pad {
                        pad = child_pad;
                    }
                }
                k = k + 1;
            }
            pad
        },
    }
}

/// Whether a shape nests no deeper than the given budget.
#[verifier::loop_isolation(false)]
pub fn check_depth(s: &Shape, budget: u64) -> (r: bool)
    ensures
        r == (height_of(*s) <= budget as nat),
    decreases *s, 0int, 0int,
{
    if budget == 0 {
        return false;
    }
    match s {
        Shape::Leaf => true,
        Shape::Optional(b) | Shape::Listing(b) | Shape::Mapping(b) => check_depth(&**b, budget - 1),
        Shape::Composite(rs) => {
            let mut i: usize = 0;
            while i < rs.fields.len()
                invariant
                    0 <= i <= rs.fields@.len(),
                    budget >= 1,
                    fields_height(rs.fields@, i as int) + 1 <= budget as nat,
                decreases rs.fields@.len() - i,
            {
                if !check_depth(&rs.fields[i].child, budget - 1) {
                    proof {
                        lemma_fields_height_bounds(rs.fields@, rs.fields@.len() as int, i as int);
                    }
                    return false;
                }
                i = i + 1;
            }
            true
        },
    }
}

/// A child's height never exceeds the fields' joint height.
pub proof fn lemma_fields_height_bounds(fields: Seq<FieldShape>, k: int, j: int)
    requires
        0 <= j < k <= fields.len(),
    ensures
        fields_height(fields, k) >= height_of(fields[j].child),
    decreases k,
{
    if j < k - 1 {
        lemma_fields_height_bounds(fields, k - 1, j);
    }
}

/// Whether a shape is fit for rendering (see `shape_ok`).
#[verifier::loop_isolation(false)]
pub fn check_shape_ok(s: &Shape) -> (r: bool)
    ensures
        r == shape_ok(*s),
    decreases *s, 0int, 0int,
{
    match s {
        Shape::Leaf => true,
        Shape::Optional(b) | Shape::Listing(b) | Shape::Mapping(b) => check_shape_ok(&**b),
        Shape::Composite(rs) => {
            let mut i: usize = 0;
            let mut all_ok: bool = true;
            while i < rs.fields.len()
                invariant
                    0 <= i <= rs.fields@.len(),
                    all_ok == forall|j: int| 0 <= j < i ==> field_ok(#[trigger] rs.fields@[j]),
                decreases rs.fields@.len() - i,
            {
                let f = &rs.fields[i];
                let mut ok: bool = check_shape_ok(&f.child);
                ok = ok && crate::text::is_dotless(f.name.as_str());
                if f.flatten {
                    ok = ok && matches!(&f.child, Shape::Composite(_));
                }
                if f.extra {
                    ok = ok && matches!(&f.child, Shape::Composite(_)) && !f.flatten
                        && !f.embed_table && !f.skip_header;
                }
                if f.embed_table {
                    ok = ok && matches!(&f.child, Shape::Listing(_));
                }
                if !ok {
                    proof {
                        assert(!field_ok(rs.fields@[i as int]));
                    }
                    return false;
                }
                proof {
                    assert(field_ok(rs.fields@[i as int]));
                }
                i = i + 1;
            }
            // The record's own label floor must fit the machine; the inlined
            // children's pads were checked recursively and cannot raise it
            // beyond the largest of them.
            let mut widest: usize = 0;
            let mut any_own: bool = false;
            let mut k: usize = 0;
            while k < rs.fields.len()
                invariant
                    0 <= k <= rs.fields@.len(),
                    widest as nat == base_label_max(rs.fields@, k as int),
                    any_own == has_own_field(rs.fields@, k as int),
                decreases rs.fields@.len() - k,
            {
                if !rs.fields[k].extra {
                    any_own = true;
                    let l = rs.fields[k].label.as_str().unicode_len();
                    if l > widest {
                        widest = l;
                    }
                }
                proof {
                    if any_own {
                        assert(has_own_field(rs.fields@, k as int + 1));
                    }
                }
                k = k + 1;
            }
            if any_own && widest == usize::MAX {
                proof {
                    assert(base_pad(rs.fields@, rs.fields@.len() as int) > usize::MAX);
                    lemma_flat_pad_bounds(rs.fields@, rs.fields@.len() as int);
                }
                return false;
            }
            proof {
                lemma_flat_pad_fits(rs.fields@, rs.fields@.len() as int);
            }
            true
        },
    }
}

/// Once every field is fit and the record's own floor fits the machine, the
/// whole pad fits it too.
proof fn lemma_flat_pad_fits(fields: Seq<FieldShape>, k: int)
    requires
        0 <= k <= fields.len(),
        forall|j: int| 0 <= j < fields.len() ==> field_ok(#[trigger] fields[j]),
        base_pad(fields, fields.len() as int) <= usize::MAX,
    ensures
        flat_pad(fields, k) <= usize::MAX,
    decreases k,
{
    if k > 0 {
        lemma_flat_pad_fits(fields, k - 1);
        if fields[k - 1].flatten && !fields[k - 1].extra {
            assert(field_ok(fields[k - 1]));
            assert(shape_ok(fields[k - 1].child));
            assert(fields[k - 1].child is Composite);
            assert(struct_pad_of(fields[k - 1].child) <= usize::MAX);
        }
    }
}


/// How many of the first `k` fields are the record's own (not an appended
/// computed group).
pub open spec fn own_field_count(fields: Seq<FieldShape>, k: int) -> nat
    decreases k,
{
    if k <= 0 {
        0
    } else {
        own_field_count(fields, k - 1) + (if fields[k - 1].extra {
            0nat
        } else {
            1nat
        })
    }
}

/// A composite with `N` declared fields offers at least `N` header paths:
/// every declared field contributes at least one.
pub proof fn lemma_headers_cover_fields(fields: Seq<FieldShape>, k: int)
    requires
        0 <= k <= fields.len(),
    ensures
        rec_headers(fields, k).len() >= own_field_count(fields, k),
    decreases k,
{
    if k > 0 {
        lemma_headers_cover_fields(fields, k - 1);
        let f = fields[k - 1];
        if !f.extra {
            assert(field_headers(f).len() >= 1) by {
                let ch = default_headers_of(f.child);
                if ch.len() != 0 {
                    assert(field_headers(f).len() == ch.len());
                }
            }
        }
    }
}

/// Optional wrapping is transparent to header derivation at the shape level:
/// an optional shape offers exactly the headers and display-name overrides of
/// the shape it wraps.
pub proof fn lemma_optional_shape_transparent(b: Shape, path: Seq<char>)
    ensures
        headers_of(Shape::Optional(Box::new(b))) == headers_of(b),
        header_name_of(Shape::Optional(Box::new(b)), path) == header_name_of(b, path),
{
}

/// The fully inlined field sequence of the first `k` fields: a flattened
/// composite contributes its own fields, inlined recursively; every other
/// field contributes itself.
pub open spec fn flat_fields(fields: Seq<FieldShape>, k: int) -> Seq<FieldShape>
    decreases fields, 0int, k,
{
    if k <= 0 || k > fields.len() {
        Seq::empty()
    } else {
        flat_fields(fields, k - 1) + (match fields[k - 1].child {
            Shape::Composite(rs) => if fields[k - 1].flatten && !fields[k - 1].extra {
                flat_fields(rs.fields@, rs.fields@.len() as int)
            } else {
                seq![fields[k - 1]]
            },
            _ => seq![fields[k - 1]],
        })
    }
}

/// The joint pad need of the flattened children among the first `k` fields.
pub open spec fn flat_children_max(fields: Seq<FieldShape>, k: int) -> nat
    decreases fields, 1int, k,
{
    if k <= 0 || k > fields.len() {
        0
    } else {
        let m = flat_children_max(fields, k - 1);
        let f = fields[k - 1];
        if f.flatten && !f.extra && struct_pad_of(f.child) > m {
            struct_pad_of(f.child)
        } else {
            m
        }
    }
}


proof fn lemma_base_label_max_prefix_same(x: Seq<FieldShape>, y: Seq<FieldShape>, k: int)
    requires
        0 <= k <= x.len(),
        k <= y.len(),
        forall|i: int| 0 <= i < k ==> x[i] == #[trigger] y[i],
    ensures
        base_label_max(x, k) == base_label_max(y, k),
    decreases k,
{
    if k > 0 {
        lemma_base_label_max_prefix_same(x, y, k - 1);
    }
}

proof fn lemma_flat_children_max_prefix_same(x: Seq<FieldShape>, y: Seq<FieldShape>, k: int)
    requires
        0 <= k <= x.len(),
        k <= y.len(),
        forall|i: int| 0 <= i < k ==> x[i] == #[trigger] y[i],
    ensures
        flat_children_max(x, k) == flat_children_max(y, k),
    decreases k,
{
    if k > 0 {
        lemma_flat_children_max_prefix_same(x, y, k - 1);
    }
}

proof fn lemma_flat_fields_prefix_same(x: Seq<FieldShape>, y: Seq<FieldShape>, k: int)
    requires
        0 <= k <= x.len(),
        k <= y.len(),
        forall|i: int| 0 <= i < k ==> x[i] == #[trigger] y[i],
    ensures
        flat_fields(x, k) == flat_fields(y, k),
    decreases k,
{
    if k > 0 {
        lemma_flat_fields_prefix_same(x, y, k - 1);
    }
}

proof fn lemma_base_label_max_concat(a: Seq<FieldShape>, b: Seq<FieldShape>, i: int)
    requires
        0 <= i <= b.len(),
    ensures
        base_label_max(a + b, a.len() + i) == if base_label_max(b, i) > base_label_max(
            a,
            a.len() as int,
        ) {
            base_label_max(b, i)
        } else {
            base_label_max(a, a.len() as int)
        },
    decreases i,
{
    if i == 0 {
        lemma_base_label_max_prefix_same(a + b, a, a.len() as int);
    } else {
        lemma_base_label_max_concat(a, b, i - 1);
        assert((a + b)[a.len() + i - 1] == b[i - 1]);
    }
}

proof fn lemma_flat_children_max_concat(a: Seq<FieldShape>, b: Seq<FieldShape>, i: int)
    requires
        0 <= i <= b.len(),
    ensures
        flat_children_max(a + b, a.len() + i) == if flat_children_max(b, i) > flat_children_max(
            a,
            a.len() as int,
        ) {
            flat_children_max(b, i)
        } else {
            flat_children_max(a, a.len() as int)
        },
    decreases i,
{
    if i == 0 {
        lemma_flat_children_max_prefix_same(a, a + b, a.len() as int);
    } else {
        lemma_flat_children_max_concat(a, b, i - 1);
        assert((a + b)[a.len() + i - 1] == b[i - 1]);
    }
}

proof fn lemma_flat_fields_concat(a: Seq<FieldShape>, b: Seq<FieldShape>, i: int)
    requires
        0 <= i <= b.len(),
    ensures
        flat_fields(a + b, a.len() + i) == flat_fields(a, a.len() as int) + flat_fields(b, i),
    decreases i,
{
    if i == 0 {
        lemma_flat_fields_prefix_same(a, a + b, a.len() as int);
        assert(flat_fields(a, a.len() as int) + flat_fields(b, 0) =~= flat_fields(
            a,
            a.len() as int,
        ));
    } else {
        lemma_flat_fields_concat(a, b, i - 1);
        assert((a + b)[a.len() + i - 1] == b[i - 1]);
        assert(flat_fields(a, a.len() as int) + flat_fields(b, i) =~= flat_fields(
            a,
            a.len() as int,
        ) + flat_fields(b, i - 1) + (match b[i - 1].child {
            Shape::Composite(rs) => if b[i - 1].flatten && !b[i - 1].extra {
                flat_fields(rs.fields@, rs.fields@.len() as int)
            } else {
                seq![b[i - 1]]
            },
            _ => seq![b[i - 1]],
        }));
    }
}

proof fn lemma_has_own_concat(a: Seq<FieldShape>, b: Seq<FieldShape>)
    ensures
        has_own_field(a + b, (a.len() + b.len()) as int) == (has_own_field(a, a.len() as int)
            || has_own_field(b, b.len() as int)),
{
    if has_own_field(a, a.len() as int) {
        let w = choose|w: int| 0 <= w < a.len() && !(#[trigger] a[w]).extra;
        assert((a + b)[w] == a[w]);
        assert(has_own_field(a + b, (a.len() + b.len()) as int));
    }
    if has_own_field(b, b.len() as int) {
        let w = choose|w: int| 0 <= w < b.len() && !(#[trigger] b[w]).extra;
        assert((a + b)[a.len() + w] == b[w]);
        assert(has_own_field(a + b, (a.len() + b.len()) as int));
    }
    if has_own_field(a + b, (a.len() + b.len()) as int) {
        let w = choose|w: int| 0 <= w < a.len() + b.len() && !(#[trigger] (a + b)[w]).extra;
        if w < a.len() {
            assert(a[w] == (a + b)[w]);
            assert(has_own_field(a, a.len() as int));
        } else {
            assert(b[w - a.len()] == (a + b)[w]);
            assert(has_own_field(b, b.len() as int));
        }
    }
}

proof fn lemma_flat_pad_split(fields: Seq<FieldShape>, k: int)
    requires
        0 <= k <= fields.len(),
    ensures
        flat_pad(fields, k) == if flat_children_max(fields, k) > base_pad(
            fields,
            fields.len() as int,
        ) {
            flat_children_max(fields, k)
        } else {
            base_pad(fields, fields.len() as int)
        },
    decreases k,
{
    if k > 0 {
        lemma_flat_pad_split(fields, k - 1);
    }
}

/// Flattening is associative: when a composite B (itself flattening A) is
/// flattened into C, inlining B's own fields directly into C yields the same
/// fully inlined field sequence; and C's label pad is the inlined pad raised
/// only by the flattened field's own (never displayed) label. In particular
/// the two paddings agree whenever that label is not the widest.
pub proof fn lemma_flatten_inline(cfields: Seq<FieldShape>, p: int)
    requires
        0 <= p < cfields.len(),
        cfields[p].flatten,
        !cfields[p].extra,
        cfields[p].child is Composite,
    ensures
        ({
            let bf = cfields[p].child->Composite_0.fields@;
            let spliced = cfields.subrange(0, p) + bf + cfields.subrange(
                p + 1,
                cfields.len() as int,
            );
            &&& flat_fields(spliced, spliced.len() as int) == flat_fields(
                cfields,
                cfields.len() as int,
            )
            &&& flat_pad(cfields, cfields.len() as int) == ({
                let inlined = flat_pad(spliced, spliced.len() as int);
                let own_label = cfields[p].label@.len() + 1;
                if own_label > inlined {
                    own_label
                } else {
                    inlined
                }
            })
        }),
{
    let n = cfields.len() as int;
    let f = cfields[p];
    let brs = f.child->Composite_0;
    let bf = brs.fields@;
    let nb = bf.len() as int;
    let a = cfields.subrange(0, p);
    let c = cfields.subrange(p + 1, n);
    let spliced = a + bf + c;
    assert(cfields =~= a + seq![f] + c);

    assert(seq![f].len() == 1);
    assert(seq![f][0] == f);
    assert(flat_fields(seq![f], 0) =~= Seq::<FieldShape>::empty());
    assert(flat_children_max(seq![f], 0) == 0);
    assert(base_label_max(seq![f], 0) == 0);

    // The fully inlined field sequences agree.
    lemma_flat_fields_concat(a + seq![f], c, c.len() as int);
    lemma_flat_fields_concat(a, seq![f], 1);
    assert(flat_fields(seq![f], 1) =~= Seq::<FieldShape>::empty() + flat_fields(bf, nb));
    assert(flat_fields(seq![f], 1) == flat_fields(bf, nb)) by {
        assert(Seq::<FieldShape>::empty() + flat_fields(bf, nb) =~= flat_fields(bf, nb));
    }
    lemma_flat_fields_concat(a + bf, c, c.len() as int);
    lemma_flat_fields_concat(a, bf, nb);
    assert(flat_fields(cfields, n) == flat_fields(a + seq![f] + c, n)) by {
        lemma_flat_fields_prefix_same(cfields, a + seq![f] + c, n);
    }
    assert(flat_fields(spliced, spliced.len() as int) == flat_fields(cfields, n)) by {
        assert(flat_fields(a, a.len() as int) + flat_fields(bf, nb) + flat_fields(
            c,
            c.len() as int,
        ) =~= flat_fields(a, a.len() as int) + (flat_fields(bf, nb) + flat_fields(
            c,
            c.len() as int,
        )));
        assert(flat_fields(a, a.len() as int) + flat_fields(seq![f], 1) + flat_fields(
            c,
            c.len() as int,
        ) =~= flat_fields(a, a.len() as int) + (flat_fields(seq![f], 1) + flat_fields(
            c,
            c.len() as int,
        )));
    }

    // The paddings.
    let ma = base_label_max(a, a.len() as int);
    let mb = base_label_max(bf, nb);
    let mc = base_label_max(c, c.len() as int);
    let xa = flat_children_max(a, a.len() as int);
    let xb = flat_children_max(bf, nb);
    let xc = flat_children_max(c, c.len() as int);
    lemma_base_label_max_concat(a + seq![f], c, c.len() as int);
    lemma_base_label_max_concat(a, seq![f], 1);
    lemma_base_label_max_prefix_same(cfields, a + seq![f] + c, n);
    lemma_flat_children_max_concat(a + seq![f], c, c.len() as int);
    lemma_flat_children_max_concat(a, seq![f], 1);
    lemma_flat_children_max_prefix_same(cfields, a + seq![f] + c, n);
    lemma_base_label_max_concat(a + bf, c, c.len() as int);
    lemma_base_label_max_concat(a, bf, nb);
    lemma_flat_children_max_concat(a + bf, c, c.len() as int);
    lemma_flat_children_max_concat(a, bf, nb);
    assert(base_label_max(seq![f], 1) == f.label@.len());
    assert(flat_children_max(seq![f], 1) == struct_pad_of(f.child));
    lemma_flat_pad_split(bf, nb);
    lemma_flat_pad_split(cfields, n);
    lemma_flat_pad_split(spliced, spliced.len() as int);
    lemma_has_own_concat(a + seq![f], c);
    lemma_has_own_concat(a, seq![f]);
    lemma_has_own_concat(a + bf, c);
    lemma_has_own_concat(a, bf);
    assert(has_own_field(cfields, n) == has_own_field(a + seq![f] + c, n)) by {
        assert(cfields =~= a + seq![f] + c);
    }
    assert(has_own_field(seq![f], 1));
    assert(struct_pad_of(f.child) == flat_pad(bf, nb));

    // Assemble both paddings from their components.
    let n2 = spliced.len() as int;
    assert(n2 == a.len() as int + bf.len() as int + c.len() as int);
    assert((a + seq![f]).len() as int == a.len() as int + 1);
    assert((a + bf).len() as int == a.len() as int + bf.len() as int);
    assert(a + seq![f] + c == cfields);
    let lp = f.label@.len();
    assert(base_label_max(a + seq![f], a.len() as int + 1) == if lp > ma {
        lp
    } else {
        ma
    });
    assert(base_label_max(cfields, n) == {
        let m1 = base_label_max(a + seq![f], a.len() as int + 1);
        if mc > m1 {
            mc
        } else {
            m1
        }
    });
    assert(base_label_max(a + bf, a.len() as int + nb) == if mb > ma {
        mb
    } else {
        ma
    });
    assert(base_label_max(spliced, n2) == {
        let m1 = base_label_max(a + bf, a.len() as int + nb);
        if mc > m1 {
            mc
        } else {
            m1
        }
    });
    assert(flat_children_max(a + seq![f], a.len() as int + 1) == {
        let x1 = flat_children_max(seq![f], 1);
        if x1 > xa {
            x1
        } else {
            xa
        }
    });
    assert(flat_children_max(cfields, n) == {
        let x1 = flat_children_max(a + seq![f], a.len() as int + 1);
        if xc > x1 {
            xc
        } else {
            x1
        }
    });
    assert(flat_children_max(a + bf, a.len() as int + nb) == if xb > xa {
        xb
    } else {
        xa
    });
    assert(flat_children_max(spliced, n2) == {
        let x1 = flat_children_max(a + bf, a.len() as int + nb);
        if xc > x1 {
            xc
        } else {
            x1
        }
    });
    assert(has_own_field(cfields, n));
    assert(has_own_field(spliced, n2) == (has_own_field(a, a.len() as int) || has_own_field(
        bf,
        nb,
    ) || has_own_field(c, c.len() as int)));
    assert(base_pad(cfields, n) == base_label_max(cfields, n) + 1);
    if !has_own_field(a, a.len() as int) {
        assert(ma == 0) by {
            lemma_no_own_no_label(a, a.len() as int);
        }
    }
    if !has_own_field(bf, nb) {
        assert(mb == 0) by {
            lemma_no_own_no_label(bf, nb);
        }
    }
    if !has_own_field(c, c.len() as int) {
        assert(mc == 0) by {
            lemma_no_own_no_label(c, c.len() as int);
        }
    }
}

/// A record with no own fields asks for no label room.
proof fn lemma_no_own_no_label(fields: Seq<FieldShape>, k: int)
    requires
        !has_own_field(fields, k),
    ensures
        base_label_max(fields, k) == 0,
    decreases k,
{
    if k > 0 {
        assert(!has_own_field(fields, k - 1)) by {
            if has_own_field(fields, k - 1) {
                let w = choose|w: int| 0 <= w < k - 1 && !(#[trigger] fields[w]).extra;
                assert(0 <= w < k && !fields[w].extra);
            }
        }
        lemma_no_own_no_label(fields, k - 1);
        assert(!(0 <= k - 1 < k && !fields[k - 1].extra));
    }
}

} // verus!
