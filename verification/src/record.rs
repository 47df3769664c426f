//! Values for registered shapes: a first-order tree of scalars, optional
//! values, sequences, string-keyed maps and composites. A `Record` pairs such
//! a value with its shape; rendering walks both in lockstep.

use vstd::prelude::*;
use vstd::string::StrSliceExecFns;
use vstd::string::StringExecFns;

use crate::describe::tombstone;
use crate::describe::tombstone_string;
use crate::map::keys_sorted;
use crate::shape::FieldShape;
use crate::shape::Shape;
use crate::text::path_head;
use crate::text::path_tail;

verus! {

/// A renderable value: the data side of a registered shape.
pub enum Datum {
    /// A scalar, already in its text form.
    Text(String),
    /// An optional value.
    Optional(Option<Box<Datum>>),
    /// A sequence of values.
    Listing(Vec<Datum>),
    /// A string-keyed map, its entries sorted by key.
    Mapping(Vec<(String, Datum)>),
    /// A composite: one value per declared field, in field order.
    Composite(Vec<Datum>),
}

/// A value has exactly the form its shape declares: a composite carries one
/// value per field, each conforming to the field's shape; map entries are
/// sorted by key.
pub open spec fn conforms(d: Datum, s: Shape) -> bool
    decreases d,
{
    match (d, s) {
        (Datum::Text(_), Shape::Leaf) => true,
        (Datum::Optional(o), Shape::Optional(bs)) => match o {
            None => true,
            Some(b) => conforms(*b, *bs),
        },
        (Datum::Listing(items), Shape::Listing(es)) => forall|i: int|
            0 <= i < items@.len() ==> conforms(#[trigger] items@[i], *es),
        (Datum::Mapping(entries), Shape::Mapping(vs)) => keys_sorted(entries@) && forall|i: int|
            0 <= i < entries@.len() ==> conforms(#[trigger] entries@[i].1, *vs),
        (Datum::Composite(vals), Shape::Composite(rs)) => vals@.len() == rs.fields@.len()
            && forall|i: int|
            0 <= i < vals@.len() ==> conforms(#[trigger] vals@[i], rs.fields@[i].child),
        _ => false,
    }
}

/// The text placed in a cell whose path matches no field.
pub open spec fn not_found_text() -> Seq<char> {
    seq!['f', 'i', 'e', 'l', 'd', ' ', 'n', 'o', 't', ' ', 'f', 'o', 'u', 'n', 'd']
}

/// A fresh string holding the resolution-failure sentinel.
pub fn not_found_string() -> (r: String)
    ensures
        r@ == not_found_text(),
{
    proof {
        reveal_strlit("field not found");
        assert("field not found"@ =~= not_found_text());
    }
    String::from_str("field not found")
}

/// The first field that is not an appended computed group and carries the
/// given path segment.
pub open spec fn find_named(fields: Seq<FieldShape>, name: Seq<char>) -> Option<int>
    decreases fields.len(),
{
    if fields.len() == 0 {
        None
    } else if !fields[0].extra && fields[0].name@ == name {
        Some(0int)
    } else {
        match find_named(fields.drop_first(), name) {
            None => None,
            Some(i) => Some(i + 1),
        }
    }
}

/// The first appended computed group among the fields.
pub open spec fn first_extra(fields: Seq<FieldShape>) -> Option<int>
    decreases fields.len(),
{
    if fields.len() == 0 {
        None
    } else if fields[0].extra {
        Some(0int)
    } else {
        match first_extra(fields.drop_first()) {
            None => None,
            Some(i) => Some(i + 1),
        }
    }
}

pub proof fn lemma_find_named_props(fields: Seq<FieldShape>, name: Seq<char>)
    ensures
        match find_named(fields, name) {
            Some(i) => 0 <= i < fields.len() && !fields[i].extra && fields[i].name@ == name
                && forall|j: int|
                0 <= j < i ==> !(!(#[trigger] fields[j]).extra && fields[j].name@ == name),
            None => forall|j: int|
                0 <= j < fields.len() ==> !(!(#[trigger] fields[j]).extra && fields[j].name@
                    == name),
        },
    decreases fields.len(),
{
    if fields.len() > 0 && !(!fields[0].extra && fields[0].name@ == name) {
        lemma_find_named_props(fields.drop_first(), name);
        assert forall|j: int| 1 <= j < fields.len() implies fields.drop_first()[j - 1] == fields[j]
            by {}
    }
}

pub proof fn lemma_first_extra_props(fields: Seq<FieldShape>)
    ensures
        match first_extra(fields) {
            Some(i) => 0 <= i < fields.len() && fields[i].extra && forall|j: int|
                0 <= j < i ==> !(#[trigger] fields[j]).extra,
            None => forall|j: int| 0 <= j < fields.len() ==> !(#[trigger] fields[j]).extra,
        },
    decreases fields.len(),
{
    if fields.len() > 0 && !fields[0].extra {
        lemma_first_extra_props(fields.drop_first());
        assert forall|j: int| 1 <= j < fields.len() implies fields.drop_first()[j - 1] == fields[j]
            by {}
    }
}

/// What resolving a path against a value returns: a scalar answers its own
/// text whatever the path; an absent optional answers the tombstone; a
/// sequence resolves the path in every element and joins the results with
/// commas; a keyed map answers a fixed placeholder (it has no single-cell
/// text); a composite splits the path at its first dot, dispatches to the
/// matching field, hands unmatched paths whole to its appended computed
/// group, and answers the failure sentinel when nothing matches.
pub open spec fn spec_field_of(d: Datum, s: Shape, path: Seq<char>) -> Seq<char>
    decreases d, 0int, 0int,
{
    match (d, s) {
        (Datum::Text(t), _) => t@,
        (Datum::Optional(o), Shape::Optional(bs)) => match o {
            None => tombstone(),
            Some(b) => spec_field_of(*b, *bs, path),
        },
        (Datum::Listing(items), Shape::Listing(es)) => listing_fields(
            items@,
            *es,
            items@.len() as int,
            path,
        ),
        (Datum::Mapping(_), Shape::Mapping(_)) => seq!['t', 'o', 'd', 'o'],
        (Datum::Composite(vals), Shape::Composite(rs)) => {
            match find_named(rs.fields@, path_head(path)) {
                Some(i) => if 0 <= i < vals@.len() {
                    spec_field_of(vals@[i], rs.fields@[i].child, path_tail(path))
                } else {
                    not_found_text()
                },
                None => match first_extra(rs.fields@) {
                    Some(e) => if 0 <= e < vals@.len() {
                        spec_field_of(vals@[e], rs.fields@[e].child, path)
                    } else {
                        not_found_text()
                    },
                    None => not_found_text(),
                },
            }
        },
        _ => Seq::empty(),
    }
}

/// The path resolved in the first `k` elements, joined with commas.
pub open spec fn listing_fields(items: Seq<Datum>, es: Shape, k: int, path: Seq<char>) -> Seq<char>
    decreases items, 1int, k,
{
    if k <= 0 || k > items.len() {
        Seq::empty()
    } else if k == 1 {
        spec_field_of(items[0], es, path)
    } else {
        listing_fields(items, es, k - 1, path) + seq![','] + spec_field_of(items[k - 1], es, path)
    }
}

/// Resolve a field path against a value of the given shape, as `to_field`
/// does for a composite registered with that shape.
#[verifier::loop_isolation(false)]
pub fn record_field(d: &Datum, s: &Shape, path: &str) -> (r: String)
    ensures
        r@ == spec_field_of(*d, *s, path@),
    decreases *d, 0int,
{
    match (d, s) {
        (Datum::Text(t), _) => t.clone(),
        (Datum::Optional(o), Shape::Optional(bs)) => match o {
            None => tombstone_string(),
            Some(b) => record_field(&**b, &**bs, path),
        },
        (Datum::Listing(items), Shape::Listing(es)) => {
            let mut out = String::new();
            let mut i: usize = 0;
            proof {
                reveal_strlit(",");
            }
            while i < items.len()
                invariant
                    0 <= i <= items@.len(),
                    out@ == listing_fields(items@, **es, i as int, path@),
                decreases items@.len() - i,
            {
                if i > 0 {
                    out.append(",");
                }
                let cell = record_field(&items[i], &**es, path);
                out.append(cell.as_str());
                proof {
                    assert(out@ =~= listing_fields(items@, **es, i as int + 1, path@));
                }
                i = i + 1;
            }
            out
        },
        (Datum::Mapping(_), Shape::Mapping(_)) => {
            proof {
                reveal_strlit("todo");
                assert("todo"@ =~= seq!['t', 'o', 'd', 'o']);
            }
            String::from_str("todo")
        },
        (Datum::Composite(vals), Shape::Composite(rs)) => {
            let (h, t) = crate::text::get_keys(path);
            proof {
                lemma_find_named_props(rs.fields@, h@);
                lemma_first_extra_props(rs.fields@);
            }
            let mut i: usize = 0;
            while i < rs.fields.len()
                invariant
                    0 <= i <= rs.fields@.len(),
                    forall|j: int|
                        0 <= j < i ==> !(!(#[trigger] rs.fields@[j]).extra && rs.fields@[j].name@
                            == h@),
                decreases rs.fields@.len() - i,
            {
                if !rs.fields[i].extra && crate::text::str_eq(rs.fields[i].name.as_str(), h) {
                    proof {
                        assert(find_named(rs.fields@, h@) == Some(i as int)) by {
                            match find_named(rs.fields@, h@) {
                                Some(w) => {
                                    if w < i as int {
                                    } else if w > i as int {
                                    }
                                },
                                None => {},
                            }
                        }
                    }
                    if i < vals.len() {
                        let r = record_field(&vals[i], &rs.fields[i].child, t);
                        return r;
                    } else {
                        return not_found_string();
                    }
                }
                i = i + 1;
            }
            proof {
                assert(find_named(rs.fields@, h@) is None);
            }
            let mut e: usize = 0;
            while e < rs.fields.len()
                invariant
                    0 <= e <= rs.fields@.len(),
                    forall|j: int| 0 <= j < e ==> !(#[trigger] rs.fields@[j]).extra,
                decreases rs.fields@.len() - e,
            {
                if rs.fields[e].extra {
                    proof {
                        assert(first_extra(rs.fields@) == Some(e as int)) by {
                            match first_extra(rs.fields@) {
                                Some(w) => {
                                    if w < e as int {
                                    } else if w > e as int {
                                    }
                                },
                                None => {},
                            }
                        }
                    }
                    if e < vals.len() {
                        let r = record_field(&vals[e], &rs.fields[e].child, path);
                        return r;
                    } else {
                        return not_found_string();
                    }
                }
                e = e + 1;
            }
            proof {
                assert(first_extra(rs.fields@) is None);
            }
            not_found_string()
        },
        _ => String::new(),
    }
}


/// The header paths a record table uses: the caller's list when one is
/// given, else the shape's default headers.
pub open spec fn dyn_effective(es: Shape, hs: Seq<Seq<char>>) -> Seq<Seq<char>> {
    if hs.len() == 0 {
        crate::shape::default_headers_of(es)
    } else {
        hs
    }
}

/// The display label of each header path of a record table.
pub open spec fn dyn_names(es: Shape, hs: Seq<Seq<char>>) -> Seq<Seq<char>> {
    hs.map_values(
        |h: Seq<char>|
            match crate::shape::header_name_of(es, h) {
                None => crate::casing::upper_snake_of(h),
                Some(n) => n,
            },
    )
}

/// Every cell of a record table.
pub open spec fn dyn_cells(items: Seq<Datum>, es: Shape, hs: Seq<Seq<char>>) -> Seq<
    Seq<Seq<char>>,
> {
    items.map_values(|d: Datum| hs.map_values(|h: Seq<char>| spec_field_of(d, es, h)))
}

/// The full table text for record rows and a (possibly empty) header
/// override.
pub open spec fn dyn_list_text(
    items: Seq<Datum>,
    es: Shape,
    hs: Seq<Seq<char>>,
    offset: nat,
) -> Seq<char> {
    crate::table::table_text(
        dyn_names(es, dyn_effective(es, hs)),
        dyn_cells(items, es, dyn_effective(es, hs)),
        offset,
    )
}

/// Render record rows as a table at the given offset.
#[verifier::loop_isolation(false)]
fn record_table(
    items: &Vec<Datum>,
    es: &Shape,
    headers: &Vec<String>,
    writer: &mut String,
    offset: usize,
)
    ensures
        final(writer)@ == old(writer)@ + dyn_list_text(
            items@,
            *es,
            headers.deep_view(),
            offset as nat,
        ),
{
    let defaults = crate::shape::shape_default_headers(es);
    let hdrs: &Vec<String> = if headers.len() == 0 {
        &defaults
    } else {
        headers
    };
    let ghost eff = dyn_effective(*es, headers.deep_view());
    proof {
        assert(headers.deep_view().len() == headers@.len());
        assert(hdrs.deep_view() == eff);
    }
    let mut rows: Vec<Vec<String>> = Vec::new();
    let mut r: usize = 0;
    while r < items.len()
        invariant
            0 <= r <= items@.len(),
            hdrs.deep_view() == eff,
            rows@.len() == r,
            forall|p: int|
                0 <= p < r ==> (#[trigger] rows@[p]).deep_view() == dyn_cells(items@, *es, eff)[p],
        decreases items@.len() - r,
    {
        let mut row: Vec<String> = Vec::new();
        let mut c: usize = 0;
        while c < hdrs.len()
            invariant
                0 <= c <= hdrs@.len(),
                r < items@.len(),
                hdrs.deep_view() == eff,
                row@.len() == c,
                forall|q: int|
                    0 <= q < c ==> (#[trigger] row@[q])@ == spec_field_of(
                        items@[r as int],
                        *es,
                        eff[q],
                    ),
            decreases hdrs@.len() - c,
        {
            proof {
                assert(hdrs.deep_view()[c as int] == hdrs@[c as int]@);
            }
            let cell = record_field(&items[r], es, hdrs[c].as_str());
            row.push(cell);
            c = c + 1;
        }
        proof {
            assert(row.deep_view() =~~= dyn_cells(items@, *es, eff)[r as int]);
        }
        rows.push(row);
        r = r + 1;
    }
    let mut names: Vec<String> = Vec::new();
    let mut j: usize = 0;
    while j < hdrs.len()
        invariant
            0 <= j <= hdrs@.len(),
            hdrs.deep_view() == eff,
            names@.len() == j,
            forall|q: int| 0 <= q < j ==> (#[trigger] names@[q])@ == dyn_names(*es, eff)[q],
        decreases hdrs@.len() - j,
    {
        proof {
            assert(hdrs.deep_view()[j as int] == hdrs@[j as int]@);
        }
        let name = match crate::shape::shape_header_name(es, hdrs[j].as_str()) {
            None => crate::casing::to_upper_snake(hdrs[j].as_str()),
            Some(n) => n,
        };
        names.push(name);
        j = j + 1;
    }
    proof {
        assert(names.deep_view() =~~= dyn_names(*es, eff));
        assert(rows.deep_view() =~~= dyn_cells(items@, *es, eff));
        assert forall|p: int| 0 <= p < rows@.len() implies (#[trigger] rows@[p])@.len()
            == names@.len() by {
            assert(rows@[p].deep_view() == dyn_cells(items@, *es, eff)[p]);
            assert(rows@[p].deep_view().len() == rows@[p]@.len());
        }
        assert(names.deep_view() == dyn_names(*es, eff));
        assert(rows.deep_view() == dyn_cells(items@, *es, eff));
    }
    crate::table::emit_table(&names, &rows, writer, offset);
}

/// The text of a field rendered as an embedded table: a newline, then the
/// table of its elements one level deeper.
pub open spec fn embed_text(v: Datum, cs: Shape, ctx: crate::context::Context) -> Seq<char> {
    match (v, cs) {
        (Datum::Listing(items), Shape::Listing(es)) => seq!['\n'] + dyn_list_text(
            items@,
            *es,
            Seq::empty(),
            (ctx.offset + 2) as nat,
        ),
        _ => Seq::empty(),
    }
}

/// No field among the first `j` appears in the object layout.
pub open spec fn none_kept(fields: Seq<FieldShape>, j: int) -> bool {
    forall|i: int| 0 <= i < j ==> (#[trigger] fields[i]).skip_describe
}

/// The object-layout text of a value of a given shape, for the layout state
/// `ctx`: scalars and absent values on the current line, sequences as
/// bulleted blocks, maps as sorted titled blocks, and composites field by
/// field (see `rec_text`).
pub open spec fn spec_obj_of(d: Datum, s: Shape, ctx: crate::context::Context) -> Seq<char>
    decreases d, 0int, 0int,
{
    match (d, s) {
        (Datum::Text(t), _) => ctx.value_text(t@),
        (Datum::Optional(o), Shape::Optional(bs)) => match o {
            None => ctx.value_text(tombstone()),
            Some(b) => spec_obj_of(*b, *bs, ctx),
        },
        (Datum::Listing(items), Shape::Listing(es)) => if items@.len() == 0 {
            ctx.value_text(tombstone())
        } else {
            listing_obj_text(items@, *es, items@.len() as int, ctx.spec_array())
        },
        (Datum::Mapping(entries), Shape::Mapping(vs)) => if entries@.len() == 0 {
            ctx.value_text(tombstone())
        } else {
            mapping_obj_text(
                entries@,
                *vs,
                entries@.len() as int,
                ctx,
                crate::map::map_pad(entries@),
            )
        },
        (Datum::Composite(vals), Shape::Composite(rs)) => rec_text(
            vals@,
            rs.fields@,
            crate::shape::flat_pad(rs.fields@, rs.fields@.len() as int),
            ctx,
            rs.fields@.len() as int,
        ),
        _ => Seq::empty(),
    }
}

/// The object texts of the first `k` elements, each in array mode.
pub open spec fn listing_obj_text(
    items: Seq<Datum>,
    es: Shape,
    k: int,
    actx: crate::context::Context,
) -> Seq<char>
    decreases items, 1int, k,
{
    if k <= 0 || k > items.len() {
        Seq::empty()
    } else {
        listing_obj_text(items, es, k - 1, actx) + spec_obj_of(items[k - 1], es, actx)
    }
}

/// The object texts of the first `k` map entries: each key as a title, each
/// value indented with the map's label column.
pub open spec fn mapping_obj_text(
    entries: Seq<(String, Datum)>,
    vs: Shape,
    k: int,
    ctx: crate::context::Context,
    pad: nat,
) -> Seq<char>
    decreases entries, 1int, k,
{
    if k <= 0 || k > entries.len() {
        Seq::empty()
    } else {
        mapping_obj_text(entries, vs, k - 1, ctx, pad) + ctx.title_text(entries[k - 1].0@, false)
            + spec_obj_of(entries[k - 1].1, vs, ctx.spec_indent(pad, entries[k - 1].0@.len()))
    }
}

/// The object texts of the first `k` fields of a composite whose pad is `sp`:
/// a suppressed field contributes nothing; a flattened or appended field
/// inlines its value at the same level with the pad proposed; any other field
/// writes its title (with the bullet when it opens an array element) and its
/// value, indented or as an embedded table.
pub open spec fn rec_text(
    vals: Seq<Datum>,
    fields: Seq<FieldShape>,
    sp: nat,
    ctx: crate::context::Context,
    k: int,
) -> Seq<char>
    decreases vals, 1int, k,
{
    if k <= 0 || k > fields.len() {
        Seq::empty()
    } else {
        let j = k - 1;
        let f = fields[j];
        rec_text(vals, fields, sp, ctx, j) + (if j >= vals.len() {
            Seq::empty()
        } else if f.skip_describe {
            Seq::empty()
        } else if f.flatten || f.extra {
            spec_obj_of(vals[j], f.child, ctx.spec_pad(sp))
        } else {
            ctx.title_text(f.label@, none_kept(fields, j)) + (if f.embed_table {
                embed_text(vals[j], f.child, ctx)
            } else {
                spec_obj_of(vals[j], f.child, ctx.spec_indent(sp, f.label@.len()))
            })
        })
    }
}

/// Every map inside the value has a label column that fits the machine.
pub open spec fn pads_ok(d: Datum) -> bool
    decreases d,
{
    match d {
        Datum::Text(_) => true,
        Datum::Optional(o) => match o {
            None => true,
            Some(b) => pads_ok(*b),
        },
        Datum::Listing(items) => forall|i: int|
            0 <= i < items@.len() ==> pads_ok(#[trigger] items@[i]),
        Datum::Mapping(entries) => crate::map::map_pad(entries@) <= usize::MAX && forall|i: int|
            0 <= i < entries@.len() ==> pads_ok(#[trigger] entries@[i].1),
        Datum::Composite(vals) => forall|i: int|
            0 <= i < vals@.len() ==> pads_ok(#[trigger] vals@[i]),
    }
}

/// A non-empty sequence needs two columns of indentation for its bullets;
/// the need shows through optional wrapping.
pub open spec fn bullets_ok(d: Datum, ctx: crate::context::Context) -> bool
    decreases d,
{
    match d {
        Datum::Optional(o) => match o {
            None => true,
            Some(b) => bullets_ok(*b, ctx),
        },
        Datum::Listing(items) => items@.len() == 0 || ctx.offset >= 2,
        _ => true,
    }
}

/// With two columns of indentation available, bullets fit everywhere.
pub proof fn lemma_bullets_deep(d: Datum, ctx: crate::context::Context)
    requires
        ctx.offset >= 2,
    ensures
        bullets_ok(d, ctx),
    decreases d,
{
    match d {
        Datum::Optional(o) => match o {
            None => {},
            Some(b) => {
                lemma_bullets_deep(*b, ctx);
            },
        },
        _ => {},
    }
}

/// The layout states an object render of a value can start from.
pub open spec fn obj_pre(d: Datum, s: Shape, ctx: crate::context::Context) -> bool {
    &&& ctx.value_ok()
    &&& bullets_ok(d, ctx)
    &&& pads_ok(d)
    &&& ctx.offset + 2 * crate::shape::height_of(s) <= usize::MAX
}


/// Write a value's object-style representation, walking its shape: as
/// `describe` does for a composite registered with that shape.
#[verifier::rlimit(100)]
#[verifier::loop_isolation(false)]
pub fn record_describe(d: &Datum, s: &Shape, writer: &mut String, ctx: crate::context::Context)
    requires
        conforms(*d, *s),
        crate::shape::shape_ok(*s),
        obj_pre(*d, *s, ctx),
    ensures
        final(writer)@ == old(writer)@ + spec_obj_of(*d, *s, ctx),
    decreases *d, 0int,
{
    match (d, s) {
        (Datum::Text(t), Shape::Leaf) => {
            ctx.write_value(writer, t.clone());
        },
        (Datum::Optional(o), Shape::Optional(bs)) => match o {
            None => {
                ctx.write_value(writer, tombstone_string());
            },
            Some(b) => {
                record_describe(&**b, &**bs, writer, ctx);
            },
        },
        (Datum::Listing(items), Shape::Listing(es)) => {
            if items.len() == 0 {
                ctx.write_value(writer, tombstone_string());
            } else {
                let actx = ctx.array();
                let mut i: usize = 0;
                while i < items.len()
                    invariant
                        0 <= i <= items@.len(),
                        actx == ctx.spec_array(),
                        writer@ == old(writer)@ + listing_obj_text(
                            items@,
                            **es,
                            i as int,
                            actx,
                        ),
                    decreases items@.len() - i,
                {
                    proof {
                        lemma_bullets_deep(items@[i as int], actx);
                    }
                    record_describe(&items[i], &**es, writer, actx);
                    proof {
                        assert(writer@ =~= old(writer)@ + listing_obj_text(
                            items@,
                            **es,
                            i as int + 1,
                            actx,
                        ));
                    }
                    i = i + 1;
                }
            }
        },
        (Datum::Mapping(entries), Shape::Mapping(vs)) => {
            if entries.len() == 0 {
                ctx.write_value(writer, tombstone_string());
            } else {
                let mut widest: usize = 0;
                let mut i: usize = 0;
                while i < entries.len()
                    invariant
                        0 <= i <= entries@.len(),
                        widest as nat == crate::map::max_key_len(entries@, i as int),
                    decreases entries@.len() - i,
                {
                    let l = entries[i].0.as_str().unicode_len();
                    if l > widest {
                        widest = l;
                    }
                    i = i + 1;
                }
                let pad = widest + 1;
                let mut k: usize = 0;
                while k < entries.len()
                    invariant
                        0 <= k <= entries@.len(),
                        pad as nat == crate::map::map_pad(entries@),
                        writer@ == old(writer)@ + mapping_obj_text(
                            entries@,
                            **vs,
                            k as int,
                            ctx,
                            pad as nat,
                        ),
                    decreases entries@.len() - k,
                {
                    let key_len = entries[k].0.as_str().unicode_len();
                    ctx.write_title(writer, entries[k].0.as_str(), false);
                    proof {
                        crate::map::lemma_max_key_len_bound(entries@, entries@.len() as int, k as int);
                        lemma_bullets_deep(
                            entries@[k as int].1,
                            ctx.spec_indent(pad as nat, entries@[k as int].0@.len()),
                        );
                    }
                    record_describe(&entries[k].1, &**vs, writer, ctx.indent(pad, key_len));
                    proof {
                        assert(writer@ =~= old(writer)@ + mapping_obj_text(
                            entries@,
                            **vs,
                            k as int + 1,
                            ctx,
                            pad as nat,
                        ));
                    }
                    k = k + 1;
                }
            }
        },
        (Datum::Composite(vals), Shape::Composite(rs)) => {
            let sp = crate::shape::shape_struct_pad(s);
            let mut seen: bool = false;
            let mut j: usize = 0;
            while j < rs.fields.len()
                invariant
                    0 <= j <= rs.fields@.len(),
                    sp as nat == crate::shape::flat_pad(rs.fields@, rs.fields@.len() as int),
                    seen == !none_kept(rs.fields@, j as int),
                    writer@ == old(writer)@ + rec_text(
                        vals@,
                        rs.fields@,
                        sp as nat,
                        ctx,
                        j as int,
                    ),
                decreases rs.fields@.len() - j,
            {
                let f = &rs.fields[j];
                proof {
                    assert(crate::shape::field_ok(rs.fields@[j as int]));
                    assert(conforms(vals@[j as int], rs.fields@[j as int].child));
                    crate::shape::lemma_fields_height_bounds(
                        rs.fields@,
                        rs.fields@.len() as int,
                        j as int,
                    );
                    crate::shape::lemma_flat_pad_bounds(rs.fields@, rs.fields@.len() as int);
                }
                if f.skip_describe {
                } else if f.flatten || f.extra {
                    proof {
                        assert(bullets_ok(vals@[j as int], ctx.spec_pad(sp as nat)));
                    }
                    record_describe(&vals[j], &f.child, writer, ctx.pad(sp));
                } else {
                    let label_len = f.label.as_str().unicode_len();
                    ctx.write_title(writer, f.label.as_str(), !seen);
                    if f.embed_table {
                        match (&vals[j], &f.child) {
                            (Datum::Listing(items), Shape::Listing(es)) => {
                                proof {
                                    reveal_strlit("\n");
                                }
                                writer.append("\n");
                                let empty_h: Vec<String> = Vec::new();
                                proof {
                                    assert(empty_h.deep_view() =~= Seq::<Seq<char>>::empty());
                                }
                                record_table(items, &**es, &empty_h, writer, ctx.offset + 2);
                            },
                            _ => {
                                proof {
                                    assert(false);
                                }
                            },
                        }
                    } else {
                        proof {
                            crate::shape::lemma_base_label_bound(
                                rs.fields@,
                                rs.fields@.len() as int,
                                j as int,
                            );
                            lemma_bullets_deep(
                                vals@[j as int],
                                ctx.spec_indent(sp as nat, rs.fields@[j as int].label@.len()),
                            );
                        }
                        record_describe(&vals[j], &f.child, writer, ctx.indent(sp, label_len));
                    }
                }
                if !f.skip_describe {
                    seen = true;
                }
                proof {
                    assert(writer@ =~= old(writer)@ + rec_text(
                        vals@,
                        rs.fields@,
                        sp as nat,
                        ctx,
                        j as int + 1,
                    ));
                }
                j = j + 1;
            }
        },
        _ => {
            proof {
                assert(false);
            }
        },
    }
}

/// Whether a value has exactly the form its shape declares.
#[verifier::loop_isolation(false)]
pub fn check_conforms(d: &Datum, s: &Shape) -> (r: bool)
    ensures
        r == conforms(*d, *s),
    decreases *d, 0int,
{
    match (d, s) {
        (Datum::Text(_), Shape::Leaf) => true,
        (Datum::Optional(o), Shape::Optional(bs)) => match o {
            None => true,
            Some(b) => check_conforms(&**b, &**bs),
        },
        (Datum::Listing(items), Shape::Listing(es)) => {
            let mut i: usize = 0;
            while i < items.len()
                invariant
                    0 <= i <= items@.len(),
                    forall|p: int| 0 <= p < i ==> conforms(#[trigger] items@[p], **es),
                decreases items@.len() - i,
            {
                if !check_conforms(&items[i], &**es) {
                    return false;
                }
                i = i + 1;
            }
            true
        },
        (Datum::Mapping(entries), Shape::Mapping(vs)) => {
            let mut i: usize = 0;
            while i < entries.len()
                invariant
                    0 <= i <= entries@.len(),
                    forall|p: int| 0 <= p < i ==> conforms(#[trigger] entries@[p].1, **vs),
                    forall|p: int|
                        0 <= p && p + 1 <= i && p + 1 < entries@.len() ==> crate::text::lex_lt(
                            (#[trigger] entries@[p]).0@,
                            entries@[p + 1].0@,
                        ),
                decreases entries@.len() - i,
            {
                if !check_conforms(&entries[i].1, &**vs) {
                    return false;
                }
                if i + 1 < entries.len() {
                    if !crate::text::str_lex_lt(
                        entries[i].0.as_str(),
                        entries[i + 1].0.as_str(),
                    ) {
                        proof {
                            assert(!keys_sorted(entries@));
                        }
                        return false;
                    }
                }
                i = i + 1;
            }
            proof {
                crate::map::lemma_sorted_from_adjacent(entries@);
            }
            true
        },
        (Datum::Composite(vals), Shape::Composite(rs)) => {
            if vals.len() != rs.fields.len() {
                return false;
            }
            let mut i: usize = 0;
            while i < vals.len()
                invariant
                    0 <= i <= vals@.len(),
                    vals@.len() == rs.fields@.len(),
                    forall|p: int|
                        0 <= p < i ==> conforms(#[trigger] vals@[p], rs.fields@[p].child),
                decreases vals@.len() - i,
            {
                if !check_conforms(&vals[i], &rs.fields[i].child) {
                    return false;
                }
                i = i + 1;
            }
            true
        },
        _ => false,
    }
}

/// Whether every map inside the value has a label column that fits the
/// machine.
#[verifier::loop_isolation(false)]
pub fn check_pads(d: &Datum) -> (r: bool)
    ensures
        r == pads_ok(*d),
    decreases *d, 0int,
{
    match d {
        Datum::Text(_) => true,
        Datum::Optional(o) => match o {
            None => true,
            Some(b) => check_pads(&**b),
        },
        Datum::Listing(items) => {
            let mut i: usize = 0;
            while i < items.len()
                invariant
                    0 <= i <= items@.len(),
                    forall|p: int| 0 <= p < i ==> pads_ok(#[trigger] items@[p]),
                decreases items@.len() - i,
            {
                if !check_pads(&items[i]) {
                    return false;
                }
                i = i + 1;
            }
            true
        },
        Datum::Mapping(entries) => {
            let mut widest: usize = 0;
            let mut i: usize = 0;
            while i < entries.len()
                invariant
                    0 <= i <= entries@.len(),
                    widest as nat == crate::map::max_key_len(entries@, i as int),
                    forall|p: int| 0 <= p < i ==> pads_ok(#[trigger] entries@[p].1),
                decreases entries@.len() - i,
            {
                if !check_pads(&entries[i].1) {
                    return false;
                }
                let l = entries[i].0.as_str().unicode_len();
                if l > widest {
                    widest = l;
                }
                i = i + 1;
            }
            widest < usize::MAX
        },
        Datum::Composite(vals) => {
            let mut i: usize = 0;
            while i < vals.len()
                invariant
                    0 <= i <= vals@.len(),
                    forall|p: int| 0 <= p < i ==> pads_ok(#[trigger] vals@[p]),
                decreases vals@.len() - i,
            {
                if !check_pads(&vals[i]) {
                    return false;
                }
                i = i + 1;
            }
            true
        },
    }
}


/// One renderable composite value: data paired with the shape it was
/// registered under. Construction checks the pairing once; rendering then
/// needs no further validation.
pub struct Record {
    shape: Shape,
    data: Datum,
}

impl Record {
    #[verifier::type_invariant]
    spec fn wf(self) -> bool {
        &&& conforms(self.data, self.shape)
        &&& crate::shape::shape_ok(self.shape)
        &&& pads_ok(self.data)
        &&& crate::shape::height_of(self.shape) <= 65536
    }

    /// The shape this record was registered under.
    pub closed spec fn spec_shape(&self) -> Shape {
        self.shape
    }

    /// The record's data.
    pub closed spec fn spec_data(&self) -> Datum {
        self.data
    }

    /// Pair data with its shape. The pairing is accepted exactly when the
    /// data has the declared form, the shape is fit for rendering, every map
    /// label column fits the machine, and the nesting stays within depth
    /// 65536.
    pub fn new(shape: Shape, data: Datum) -> (r: Option<Record>)
        ensures
            r is Some <==> {
                &&& conforms(data, shape)
                &&& crate::shape::shape_ok(shape)
                &&& pads_ok(data)
                &&& crate::shape::height_of(shape) <= 65536
            },
            r matches Some(rec) ==> rec.spec_shape() == shape && rec.spec_data() == data,
    {
        if crate::shape::check_shape_ok(&shape) && check_conforms(&data, &shape) && check_pads(
            &data,
        ) && crate::shape::check_depth(&shape, 65536) {
            Some(Record { shape, data })
        } else {
            None
        }
    }
}

/// A record is renderable like any other value. Header derivation is a
/// property of a shape, not of the `Record` type, so the type-level header
/// operations of the contract answer nothing here; `record_headers`,
/// `record_default_headers` and `record_header_name` answer for a record's
/// own shape, and `RecordList` renders tables of one shape.
impl crate::describe::Describe for Record {
    open spec fn spec_to_field(&self, path: Seq<char>) -> Seq<char> {
        spec_field_of(self.spec_data(), self.spec_shape(), path)
    }

    open spec fn spec_headers() -> Seq<Seq<char>> {
        Seq::empty()
    }

    open spec fn spec_default_headers() -> Seq<Seq<char>> {
        Seq::empty()
    }

    open spec fn spec_header_name(path: Seq<char>) -> Option<Seq<char>> {
        None
    }

    open spec fn spec_struct_pad() -> nat {
        0
    }

    open spec fn describe_pre(&self, ctx: crate::context::Context) -> bool {
        &&& ctx.value_ok()
        &&& bullets_ok(self.spec_data(), ctx)
        &&& ctx.offset + 131072 <= usize::MAX
    }

    open spec fn spec_describe(&self, ctx: crate::context::Context) -> Seq<char> {
        spec_obj_of(self.spec_data(), self.spec_shape(), ctx)
    }

    fn to_field(&self, field_name: &str) -> (r: String) {
        record_field(&self.data, &self.shape, field_name)
    }

    fn headers() -> (r: Vec<String>) {
        crate::describe::leaf_headers()
    }

    fn default_headers() -> (r: Vec<String>) {
        crate::describe::leaf_headers()
    }

    fn header_name(header: &str) -> (r: Option<String>) {
        None
    }

    fn struct_pad() -> (r: usize) {
        0
    }

    fn describe(&self, writer: &mut String, ctx: crate::context::Context) {
        proof {
            use_type_invariant(&*self);
        }
        record_describe(&self.data, &self.shape, writer, ctx)
    }
}

/// The header paths a record's shape can produce, in declared order: what
/// `headers()` answers for a composite of that shape.
pub fn record_headers(r: &Record) -> (out: Vec<String>)
    ensures
        out.deep_view() == crate::shape::headers_of(r.spec_shape()),
{
    proof {
        use_type_invariant(&*r);
    }
    crate::shape::shape_headers(&r.shape)
}

/// The record's default header paths.
pub fn record_default_headers(r: &Record) -> (out: Vec<String>)
    ensures
        out.deep_view() == crate::shape::default_headers_of(r.spec_shape()),
{
    proof {
        use_type_invariant(&*r);
    }
    crate::shape::shape_default_headers(&r.shape)
}

/// The record's display-name override for a header path.
pub fn record_header_name(r: &Record, path: &str) -> (out: Option<String>)
    ensures
        out.deep_view() == crate::shape::header_name_of(r.spec_shape(), path@),
{
    proof {
        use_type_invariant(&*r);
    }
    crate::shape::shape_header_name(&r.shape, path)
}

/// Rows for a table of one registered shape: each row's data has the
/// declared form.
pub struct RecordList {
    shape: Shape,
    rows: Vec<Datum>,
}

impl RecordList {
    #[verifier::type_invariant]
    spec fn wf(self) -> bool {
        &&& crate::shape::shape_ok(self.shape)
        &&& forall|i: int|
            0 <= i < self.rows@.len() ==> conforms(#[trigger] self.rows@[i], self.shape)
    }

    /// The shape the rows were registered under.
    pub closed spec fn spec_shape(&self) -> Shape {
        self.shape
    }

    /// The rows' data, in order.
    pub closed spec fn spec_rows(&self) -> Seq<Datum> {
        self.rows@
    }

    /// Pair rows with their shape: accepted exactly when the shape is fit
    /// for rendering and every row has the declared form.
    pub fn new(shape: Shape, rows: Vec<Datum>) -> (r: Option<RecordList>)
        ensures
            r is Some <==> {
                &&& crate::shape::shape_ok(shape)
                &&& forall|i: int| 0 <= i < rows@.len() ==> conforms(#[trigger] rows@[i], shape)
            },
            r matches Some(list) ==> list.spec_shape() == shape && list.spec_rows() == rows@,
    {
        if !crate::shape::check_shape_ok(&shape) {
            return None;
        }
        let mut i: usize = 0;
        while i < rows.len()
            invariant
                0 <= i <= rows@.len(),
                forall|p: int| 0 <= p < i ==> conforms(#[trigger] rows@[p], shape),
            decreases rows@.len() - i,
        {
            if !check_conforms(&rows[i], &shape) {
                return None;
            }
            i = i + 1;
        }
        Some(RecordList { shape, rows })
    }

    /// The table text of the rows under the shape's default headers, with a
    /// trailing newline.
    pub fn to_table_string(&self) -> (r: String)
        ensures
            r@ == dyn_list_text(self.spec_rows(), self.spec_shape(), Seq::empty(), 0)
                + seq!['\n'],
    {
        let headers: Vec<String> = Vec::new();
        proof {
            assert(headers.deep_view() =~= Seq::<Seq<char>>::empty());
        }
        self.to_table_string_with_headers(&headers)
    }

    /// The table text of the rows under the given header paths (the shape's
    /// default headers when none are given), with a trailing newline.
    pub fn to_table_string_with_headers(&self, headers: &Vec<String>) -> (r: String)
        ensures
            r@ == dyn_list_text(self.spec_rows(), self.spec_shape(), headers.deep_view(), 0)
                + seq!['\n'],
    {
        proof {
            use_type_invariant(&*self);
        }
        let mut out = String::new();
        record_table(&self.rows, &self.shape, headers, &mut out, 0);
        proof {
            reveal_strlit("\n");
        }
        out.append("\n");
        proof {
            assert(out@ =~= dyn_list_text(
                self.spec_rows(),
                self.spec_shape(),
                headers.deep_view(),
                0,
            ) + seq!['\n']);
        }
        out
    }
}


/// Whether resolution of a path against conforming data of shape `s` can
/// reach the failure sentinel: given conformance, that depends on the shape
/// and the path alone.
pub open spec fn path_resolves(s: Shape, path: Seq<char>) -> bool
    decreases s,
{
    match s {
        Shape::Leaf => true,
        Shape::Optional(b) => path_resolves(*b, path),
        Shape::Listing(es) => path_resolves(*es, path),
        Shape::Mapping(_) => true,
        Shape::Composite(rs) => match find_named(rs.fields@, path_head(path)) {
            Some(i) => 0 <= i < rs.fields@.len() && path_resolves(
                rs.fields@[i].child,
                path_tail(path),
            ),
            None => match first_extra(rs.fields@) {
                Some(e) => 0 <= e < rs.fields@.len() && path_resolves(rs.fields@[e].child, path),
                None => false,
            },
        },
    }
}

/// Resolution of a path against a value takes no failing branch.
pub open spec fn resolves(d: Datum, s: Shape, path: Seq<char>) -> bool
    decreases d,
{
    match (d, s) {
        (Datum::Text(_), _) => true,
        (Datum::Optional(o), Shape::Optional(bs)) => match o {
            None => true,
            Some(b) => resolves(*b, *bs, path),
        },
        (Datum::Listing(items), Shape::Listing(es)) => forall|i: int|
            0 <= i < items@.len() ==> resolves(#[trigger] items@[i], *es, path),
        (Datum::Mapping(_), Shape::Mapping(_)) => true,
        (Datum::Composite(vals), Shape::Composite(rs)) => match find_named(
            rs.fields@,
            path_head(path),
        ) {
            Some(i) => 0 <= i < vals@.len() && resolves(
                vals@[i],
                rs.fields@[i].child,
                path_tail(path),
            ),
            None => match first_extra(rs.fields@) {
                Some(e) => 0 <= e < vals@.len() && resolves(vals@[e], rs.fields@[e].child, path),
                None => false,
            },
        },
        _ => false,
    }
}

/// On conforming data, shape-level resolvability carries over to the data.
pub proof fn lemma_path_resolves_conforming(d: Datum, s: Shape, path: Seq<char>)
    requires
        conforms(d, s),
        path_resolves(s, path),
    ensures
        resolves(d, s, path),
    decreases d,
{
    match (d, s) {
        (Datum::Optional(o), Shape::Optional(bs)) => match o {
            None => {},
            Some(b) => {
                lemma_path_resolves_conforming(*b, *bs, path);
            },
        },
        (Datum::Listing(items), Shape::Listing(es)) => {
            assert forall|i: int| 0 <= i < items@.len() implies resolves(
                #[trigger] items@[i],
                *es,
                path,
            ) by {
                lemma_path_resolves_conforming(items@[i], *es, path);
            }
        },
        (Datum::Composite(vals), Shape::Composite(rs)) => {
            match find_named(rs.fields@, path_head(path)) {
                Some(i) => {
                    lemma_path_resolves_conforming(
                        vals@[i],
                        rs.fields@[i].child,
                        path_tail(path),
                    );
                },
                None => match first_extra(rs.fields@) {
                    Some(e) => {
                        lemma_path_resolves_conforming(vals@[e], rs.fields@[e].child, path);
                    },
                    None => {},
                },
            }
        },
        _ => {},
    }
}

/// Shapes whose conforming values resolve the empty path: every shape but a
/// composite, down through wrappers.
pub open spec fn empty_path_ok(s: Shape) -> bool
    decreases s,
{
    match s {
        Shape::Leaf => true,
        Shape::Optional(b) => empty_path_ok(*b),
        Shape::Listing(b) => empty_path_ok(*b),
        Shape::Mapping(_) => true,
        Shape::Composite(_) => false,
    }
}

proof fn lemma_empty_path_ok_resolves(s: Shape, path: Seq<char>)
    requires
        empty_path_ok(s),
    ensures
        path_resolves(s, path),
    decreases s,
{
    match s {
        Shape::Optional(b) => {
            lemma_empty_path_ok_resolves(*b, path);
        },
        Shape::Listing(b) => {
            lemma_empty_path_ok_resolves(*b, path);
        },
        _ => {},
    }
}

/// A shape answers resolution for every header path it advertises, provided
/// it is header-sound: field names are dot-free and unambiguous, a declared
/// default-header override only names resolvable paths, a field whose child
/// advertises no default headers tolerates the empty path, and the headers
/// of an appended computed group are not shadowed by a declared field.
pub open spec fn headers_wf(s: Shape) -> bool
    decreases s,
{
    match s {
        Shape::Leaf => true,
        Shape::Optional(b) => headers_wf(*b),
        Shape::Listing(b) => headers_wf(*b),
        Shape::Mapping(b) => headers_wf(*b),
        Shape::Composite(rs) => (forall|j: int|
            0 <= j < rs.fields@.len() ==> headers_wf((#[trigger] rs.fields@[j]).child)) && (forall|
            j: int,
        |
            0 <= j < rs.fields@.len() && !(#[trigger] rs.fields@[j]).extra ==> find_named(
                rs.fields@,
                rs.fields@[j].name@,
            ) == Some(j)) && (forall|j: int|
            0 <= j < rs.fields@.len() && !(#[trigger] rs.fields@[j]).extra
                && default_headers_of_field(rs.fields@[j]).len() == 0 ==> empty_path_ok(
                rs.fields@[j].child,
            )) && (forall|j: int|
            0 <= j < rs.fields@.len() && (#[trigger] rs.fields@[j]).extra ==> first_extra(
                rs.fields@,
            ) == Some(j)) && (forall|j: int, x: Seq<char>|
            0 <= j < rs.fields@.len() && (#[trigger] rs.fields@[j]).extra
                && default_headers_of_field(rs.fields@[j]).contains(x) ==> find_named(
                rs.fields@,
                path_head(x),
            ) is None && #[trigger] path_resolves(rs.fields@[j].child, x)) && override_resolves(rs),
    }
}

/// A declared default-header override only names paths the composite
/// resolves.
pub open spec fn override_resolves(rs: crate::shape::RecordShape) -> bool {
    match rs.header_override {
        Some(hs) => forall|x: Seq<char>|
            hs.deep_view().contains(x) ==> #[trigger] path_resolves(Shape::Composite(rs), x),
        None => true,
    }
}

/// The default headers of a field's child shape.
pub open spec fn default_headers_of_field(f: FieldShape) -> Seq<Seq<char>> {
    crate::shape::default_headers_of(f.child)
}

/// What a header path of a composite looks like: it came from some field.
proof fn lemma_rec_headers_member(fields: Seq<FieldShape>, k: int, path: Seq<char>) -> (j: int)
    requires
        0 <= k <= fields.len(),
        rec_headers_of(fields, k).contains(path),
    ensures
        0 <= j < k,
        crate::shape::field_headers(fields[j]).contains(path),
    decreases k,
{
    if k > 0 && crate::shape::field_headers(fields[k - 1]).contains(path) {
        k - 1
    } else {
        assert(rec_headers_of(fields, k) == rec_headers_of(fields, k - 1)
            + crate::shape::field_headers(fields[k - 1]));
        assert(rec_headers_of(fields, k - 1).contains(path)) by {
            let w = choose|w: int|
                0 <= w < rec_headers_of(fields, k).len() && rec_headers_of(fields, k)[w] == path;
            if w >= rec_headers_of(fields, k - 1).len() {
                assert(crate::shape::field_headers(fields[k - 1])[w - rec_headers_of(
                    fields,
                    k - 1,
                ).len()] == path);
            }
        }
        lemma_rec_headers_member(fields, k - 1, path)
    }
}

/// Short name for the shape module's `rec_headers`.
pub open spec fn rec_headers_of(fields: Seq<FieldShape>, k: int) -> Seq<Seq<char>> {
    crate::shape::rec_headers(fields, k)
}

/// Splitting `name + "." + x` at its first dot gives `name` and `x` back,
/// when `name` holds no dot.
proof fn lemma_split_prefixed(name: Seq<char>, x: Seq<char>)
    requires
        crate::text::dotless(name),
    ensures
        path_head(name + seq!['.'] + x) == name,
        path_tail(name + seq!['.'] + x) == x,
{
    let p = name + seq!['.'] + x;
    assert(p[name.len() as int] == '.');
    assert forall|j: int| 0 <= j < name.len() implies p[j] != '.' by {
        assert(p[j] == name[j]);
    }
    assert(crate::text::first_dot_at(p, name.len() as int));
    let w = choose|i: int| crate::text::first_dot_at(p, i);
    crate::text::lemma_first_dot_unique(p, name.len() as int, w);
    assert(p.subrange(0, name.len() as int) =~= name);
    assert(p.subrange(name.len() as int + 1, p.len() as int) =~= x);
}

/// A dot-free path splits into itself and the empty remainder.
proof fn lemma_split_dotless(name: Seq<char>)
    requires
        crate::text::dotless(name),
    ensures
        path_head(name) == name,
        path_tail(name) == Seq::<char>::empty(),
{
    assert forall|i: int| !crate::text::first_dot_at(name, i) by {}
}

/// Whatever the default headers keep was already among the headers.
proof fn lemma_drop_skipped_member(
    hs: Seq<Seq<char>>,
    fields: Seq<FieldShape>,
    k: int,
    x: Seq<char>,
)
    requires
        0 <= k <= hs.len(),
        crate::shape::drop_skipped(hs, fields, k).contains(x),
    ensures
        hs.contains(x),
    decreases k,
{
    if k > 0 {
        if crate::shape::drop_skipped(hs, fields, k - 1).contains(x) {
            lemma_drop_skipped_member(hs, fields, k - 1, x);
        } else {
            let d = crate::shape::drop_skipped(hs, fields, k);
            let d0 = crate::shape::drop_skipped(hs, fields, k - 1);
            let w = choose|w: int| 0 <= w < d.len() && d[w] == x;
            assert(w >= d0.len());
            assert(hs[k - 1] == x);
        }
    }
}

/// The totality law: a header-sound shape resolves every path it advertises,
/// so resolving `to_field` for every path in `headers()` never reaches the
/// failure sentinel on conforming data.
pub proof fn lemma_headers_resolve(s: Shape, path: Seq<char>)
    requires
        crate::shape::shape_ok(s),
        headers_wf(s),
        crate::shape::headers_of(s).contains(path),
    ensures
        path_resolves(s, path),
    decreases s, 2int,
{
    match s {
        Shape::Leaf => {
            assert(crate::shape::headers_of(s).len() == 0);
        },
        Shape::Optional(b) => {
            lemma_headers_resolve(*b, path);
        },
        Shape::Listing(_) => {
            assert(crate::shape::headers_of(s).len() == 0);
        },
        Shape::Mapping(_) => {
            assert(crate::shape::headers_of(s).len() == 0);
        },
        Shape::Composite(rs) => {
            let j = lemma_rec_headers_member(rs.fields@, rs.fields@.len() as int, path);
            let f = rs.fields@[j];
            assert(0 <= j < rs.fields@.len());
            assert(crate::shape::field_ok(rs.fields@[j]));
            assert(headers_wf(rs.fields@[j].child));
            if f.extra {
                assert(crate::shape::field_headers(f) == default_headers_of_field(f));
                assert(default_headers_of_field(rs.fields@[j]).contains(path));
                assert(first_extra(rs.fields@) == Some(j));
                assert(path_resolves(rs.fields@[j].child, path));
                assert(find_named(rs.fields@, path_head(path)) is None);
            } else {
                let ch = default_headers_of_field(f);
                if ch.len() == 0 {
                    assert(path == f.name@);
                    lemma_split_dotless(f.name@);
                    assert(find_named(rs.fields@, path_head(path)) == Some(j));
                    lemma_empty_path_ok_resolves(f.child, Seq::<char>::empty());
                } else {
                    let w = choose|w: int|
                        0 <= w < crate::shape::field_headers(f).len()
                            && crate::shape::field_headers(f)[w] == path;
                    let x = ch[w];
                    assert(path == f.name@ + seq!['.'] + x);
                    lemma_split_prefixed(f.name@, x);
                    assert(find_named(rs.fields@, path_head(path)) == Some(j));
                    lemma_default_headers_resolve(f.child, x);
                }
            }
        },
    }
}

/// A header-sound shape resolves every path among its default headers.
pub proof fn lemma_default_headers_resolve(s: Shape, x: Seq<char>)
    requires
        crate::shape::shape_ok(s),
        headers_wf(s),
        crate::shape::default_headers_of(s).contains(x),
    ensures
        path_resolves(s, x),
    decreases s, 3int,
{
    match s {
        Shape::Leaf => {
            assert(crate::shape::default_headers_of(s).len() == 0);
        },
        Shape::Optional(b) => {
            lemma_headers_resolve(*b, x);
        },
        Shape::Listing(_) => {
            assert(crate::shape::default_headers_of(s).len() == 0);
        },
        Shape::Mapping(_) => {
            assert(crate::shape::default_headers_of(s).len() == 0);
        },
        Shape::Composite(rs) => {
            match rs.header_override {
                Some(hs) => {
                    assert(path_resolves(Shape::Composite(rs), x));
                },
                None => {
                    let all = rec_headers_of(rs.fields@, rs.fields@.len() as int);
                    lemma_drop_skipped_member(all, rs.fields@, all.len() as int, x);
                    lemma_headers_resolve(s, x);
                },
            }
        },
    }
}




/// The totality law, end to end: on conforming data of a header-sound,
/// render-fit shape, resolution of every advertised header path takes no
/// failing branch.
pub proof fn lemma_resolution_total(d: Datum, s: Shape, path: Seq<char>)
    requires
        conforms(d, s),
        crate::shape::shape_ok(s),
        headers_wf(s),
        crate::shape::headers_of(s).contains(path),
    ensures
        resolves(d, s, path),
{
    lemma_headers_resolve(s, path);
    lemma_path_resolves_conforming(d, s, path);
}

/// A record holding a composite can always be rendered from the top-level
/// layout state.
pub proof fn lemma_record_start_ready(r: &Record)
    requires
        r.spec_data() is Composite,
    ensures
        crate::describe::Describe::describe_pre(r, crate::context::Context::start()),
{
}

} // verus!
