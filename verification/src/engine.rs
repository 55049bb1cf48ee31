use crate::product::{lemma_product_len, lengths, product};
use crate::provider::{i8_candidates, u8_candidates};
use crate::schema::{
    converted_all, default_of, field_count, field_lens, provider_count, record_count, record_ok,
    total, variant_counts, AlternativeGen, ElementType, FieldSpec, TypeSchema, VariantSchema,
};
use crate::value::{contents, ValueView};
use vstd::prelude::*;

verus! {

/// The candidates that the type `t` has of its own, where `known` holds the
/// instances of every registered type: the curated bytes; for an optional type,
/// absent and then every candidate of the inner type as present; for a registered
/// type its instances; for a type with candidates of its own choosing those
/// candidates. Other types have none.
pub open spec fn provider(known: Seq<Seq<ValueView>>, t: ElementType) -> Seq<ValueView>
    decreases t,
{
    match t {
        ElementType::U8 => u8_candidates().map_values(|n: u8| ValueView::U8(n)),
        ElementType::I8 => i8_candidates().map_values(|n: i8| ValueView::I8(n)),
        ElementType::Optional(inner) => seq![ValueView::Absent] + provider(
            known,
            *inner,
        ).map_values(|v: ValueView| ValueView::Present(Box::new(v))),
        ElementType::Named(id) => if id < known.len() {
            known[id as int]
        } else {
            Seq::empty()
        },
        ElementType::Custom(_, values) => contents(values@),
        _ => Seq::empty(),
    }
}

/// The first `n` items of `items`, or all of them where there are fewer.
pub open spec fn first_items(items: Seq<ValueView>, n: int) -> Seq<ValueView> {
    if n <= 0 {
        Seq::empty()
    } else if n <= items.len() {
        items.take(n)
    } else {
        items
    }
}

/// The candidates of a field before the added values: those of its alternative
/// source, or those of its type where it has no such source.
pub open spec fn base_candidates(known: Seq<Seq<ValueView>>, f: FieldSpec) -> Seq<ValueView> {
    match f.attributes.alternative_gen {
        None => provider(known, f.element),
        Some(AlternativeGen::WithValues(values)) => converted_all(values@, f.element),
        Some(AlternativeGen::Default) => seq![default_of(f.element).unwrap()],
        Some(AlternativeGen::GenerateCollectionWithLength(lens)) => match f.element {
            ElementType::List(inner) => Seq::new(
                lens@.len(),
                |k: int| ValueView::List(first_items(provider(known, *inner), lens@[k] as int)),
            ),
            _ => Seq::empty(),
        },
    }
}

/// The values added after a field's other candidates.
pub open spec fn added(f: FieldSpec) -> Seq<ValueView> {
    match f.attributes.and_values {
        Some(values) => converted_all(values@, f.element),
        None => Seq::empty(),
    }
}

/// The candidates of a field: its base candidates, then the added values.
pub open spec fn candidates(known: Seq<Seq<ValueView>>, f: FieldSpec) -> Seq<ValueView> {
    base_candidates(known, f) + added(f)
}

/// The candidates of every field, in order.
pub open spec fn field_grid(known: Seq<Seq<ValueView>>, fields: Seq<FieldSpec>) -> Seq<
    Seq<ValueView>,
> {
    Seq::new(fields.len(), |i: int| candidates(known, fields[i]))
}

/// The rows of a record: the cartesian product of the candidates of its fields,
/// the last field varying fastest.
pub open spec fn record_rows(known: Seq<Seq<ValueView>>, fields: Seq<FieldSpec>) -> Seq<
    Seq<ValueView>,
> {
    product(field_grid(known, fields))
}

/// The instances of a record, one for every row.
pub open spec fn record_instances(known: Seq<Seq<ValueView>>, fields: Seq<FieldSpec>) -> Seq<
    ValueView,
> {
    record_rows(known, fields).map_values(|row: Seq<ValueView>| ValueView::Record(row))
}

/// The instances of one variant, each under the variant's tag.
pub open spec fn variant_instances(known: Seq<Seq<ValueView>>, v: VariantSchema) -> Seq<
    ValueView,
> {
    record_rows(known, v.fields@).map_values(|row: Seq<ValueView>| ValueView::Variant(v.tag@, row))
}

/// The instances of a tagged union: those of its first variant, then those of its
/// second, and so on.
pub open spec fn sum_instances(known: Seq<Seq<ValueView>>, variants: Seq<VariantSchema>) -> Seq<
    ValueView,
>
    decreases variants.len(),
{
    if variants.len() == 0 {
        Seq::empty()
    } else {
        sum_instances(known, variants.drop_last()) + variant_instances(known, variants.last())
    }
}

/// The instances of a type of the given shape.
pub open spec fn schema_instances(known: Seq<Seq<ValueView>>, schema: TypeSchema) -> Seq<
    ValueView,
> {
    match schema {
        TypeSchema::Record(fields) => record_instances(known, fields@),
        TypeSchema::Sum(variants) => sum_instances(known, variants@),
    }
}

/// The instances of every type of `types`, each made from the instances of the
/// types before it.
pub open spec fn all_instances(types: Seq<TypeSchema>) -> Seq<Seq<ValueView>>
    decreases types.len(),
{
    if types.len() == 0 {
        Seq::empty()
    } else {
        let known = all_instances(types.drop_last());
        known.push(schema_instances(known, types.last()))
    }
}

/// `counts` holds the length of every list of `known`.
pub open spec fn counted(known: Seq<Seq<ValueView>>, counts: Seq<usize>) -> bool {
    &&& known.len() == counts.len()
    &&& forall|j: int| 0 <= j < known.len() ==> (#[trigger] known[j]).len() == counts[j]
}

/// There is one list of instances per type.
pub proof fn lemma_all_instances_len(types: Seq<TypeSchema>)
    ensures
        all_instances(types).len() == types.len(),
    decreases types.len(),
{
    if types.len() > 0 {
        lemma_all_instances_len(types.drop_last());
    }
}

/// The instances of the first `k` types do not depend on the types after them.
pub proof fn lemma_all_instances_prefix(types: Seq<TypeSchema>, k: int)
    requires
        0 <= k <= types.len(),
    ensures
        all_instances(types.take(k)) == all_instances(types).take(k),
    decreases types.len(),
{
    lemma_all_instances_len(types);
    if k == types.len() {
        assert(types.take(k) =~= types);
        assert(all_instances(types).take(k) =~= all_instances(types));
    } else {
        let shorter = types.drop_last();
        lemma_all_instances_prefix(shorter, k);
        lemma_all_instances_len(shorter);
        assert(shorter.take(k) =~= types.take(k));
        assert(all_instances(types).take(k) =~= all_instances(shorter).take(k));
    }
}

/// The instances of the type at `id` are those of its shape, made from the
/// instances of the types before it.
pub proof fn lemma_all_instances_at(types: Seq<TypeSchema>, id: int)
    requires
        0 <= id < types.len(),
    ensures
        all_instances(types)[id] == schema_instances(all_instances(types.take(id)), types[id]),
{
    let upto = types.take(id + 1);
    lemma_all_instances_prefix(types, id + 1);
    lemma_all_instances_len(types);
    assert(upto.drop_last() =~= types.take(id));
    assert(upto.last() == types[id]);
    lemma_all_instances_len(types.take(id));
    let known = all_instances(types.take(id));
    assert(all_instances(upto) == known.push(schema_instances(known, types[id])));
    assert(all_instances(upto)[id] == schema_instances(known, types[id]));
    assert(all_instances(types).take(id + 1)[id] == all_instances(types)[id]);
}

/// A type has as many candidates of its own as it is counted to have.
pub proof fn lemma_provider_len(known: Seq<Seq<ValueView>>, counts: Seq<usize>, t: ElementType)
    requires
        counted(known, counts),
    ensures
        provider(known, t).len() == provider_count(counts, t),
    decreases t,
{
    match t {
        ElementType::Optional(inner) => {
            lemma_provider_len(known, counts, *inner);
        },
        _ => {},
    }
}

/// An accepted field has as many candidates as it is counted to have.
pub proof fn lemma_candidates_len(known: Seq<Seq<ValueView>>, counts: Seq<usize>, f: FieldSpec)
    requires
        counted(known, counts),
        field_count(counts, f) is Ok,
    ensures
        candidates(known, f).len() == field_count(counts, f)->Ok_0,
{
    lemma_provider_len(known, counts, f.element);
}

/// The fields of an accepted record have as many candidates as they are counted to
/// have, and the record has as many rows as it is counted to have instances.
pub proof fn lemma_record_len(
    known: Seq<Seq<ValueView>>,
    counts: Seq<usize>,
    fields: Seq<FieldSpec>,
)
    requires
        counted(known, counts),
        record_ok(counts, fields),
    ensures
        lengths(field_grid(known, fields)) == field_lens(counts, fields),
        record_rows(known, fields).len() == record_count(counts, fields),
{
    assert forall|i: int| 0 <= i < fields.len() implies lengths(field_grid(known, fields))[i]
        == field_lens(counts, fields)[i] by {
        assert(field_count(counts, fields[i]) is Ok);
        lemma_candidates_len(known, counts, fields[i]);
    }
    assert(lengths(field_grid(known, fields)) =~= field_lens(counts, fields));
    lemma_product_len(field_grid(known, fields));
}

/// A tagged union of accepted variants has as many instances as its variants are
/// counted to have together.
pub proof fn lemma_sum_len(
    known: Seq<Seq<ValueView>>,
    counts: Seq<usize>,
    variants: Seq<VariantSchema>,
)
    requires
        counted(known, counts),
        forall|k: int|
            0 <= k < variants.len() ==> record_ok(counts, (#[trigger] variants[k]).fields@),
    ensures
        sum_instances(known, variants).len() == total(variant_counts(counts, variants)),
    decreases variants.len(),
{
    if variants.len() > 0 {
        let shorter = variants.drop_last();
        lemma_sum_len(known, counts, shorter);
        assert(variant_counts(counts, variants).drop_last() =~= variant_counts(counts, shorter));
        assert(record_ok(counts, variants[variants.len() - 1].fields@));
        lemma_record_len(known, counts, variants.last().fields@);
    }
}

/// A valid shape has as many instances as it is counted to have.
pub proof fn lemma_schema_len(known: Seq<Seq<ValueView>>, counts: Seq<usize>, schema: TypeSchema)
    requires
        counted(known, counts),
        schema.valid(counts),
    ensures
        schema_instances(known, schema).len() == schema.count(counts),
{
    match schema {
        TypeSchema::Record(fields) => {
            lemma_record_len(known, counts, fields@);
        },
        TypeSchema::Sum(variants) => {
            lemma_sum_len(known, counts, variants@);
        },
    }
}

/// Every type of `types` is valid after the types before it, and `counts` holds
/// how many instances each is counted to have.
pub open spec fn all_valid(types: Seq<TypeSchema>, counts: Seq<usize>) -> bool {
    &&& counts.len() == types.len()
    &&& forall|id: int|
        0 <= id < types.len() ==> {
            &&& (#[trigger] types[id]).valid(counts.take(id))
            &&& counts[id] == types[id].count(counts.take(id))
        }
}

/// Valid types have as many instances as they are counted to have.
pub proof fn lemma_all_counted(types: Seq<TypeSchema>, counts: Seq<usize>)
    requires
        all_valid(types, counts),
    ensures
        counted(all_instances(types), counts),
    decreases types.len(),
{
    lemma_all_instances_len(types);
    if types.len() > 0 {
        let n = types.len() - 1;
        let shorter = types.drop_last();
        let fewer = counts.drop_last();
        assert forall|id: int| 0 <= id < shorter.len() implies {
            &&& (#[trigger] shorter[id]).valid(fewer.take(id))
            &&& fewer[id] == shorter[id].count(fewer.take(id))
        } by {
            assert(fewer.take(id) =~= counts.take(id));
            assert(types[id].valid(counts.take(id)));
        }
        lemma_all_counted(shorter, fewer);
        assert(types[n].valid(counts.take(n)));
        assert(counts.take(n) =~= fewer);
        lemma_schema_len(all_instances(shorter), fewer, types.last());
    }
}

} // verus!
