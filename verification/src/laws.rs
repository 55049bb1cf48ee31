use crate::engine::{
    base_candidates, candidates, field_grid, lemma_all_instances_at, provider, sum_instances,
    variant_instances,
};
use crate::product::{lemma_product_len, lemma_product_row_len, lengths, product, volume};
use crate::registry::Registry;
use crate::schema::{
    converted_all, lemma_total_step, total, AlternativeGen, ElementType, FieldSpec, Literal,
    TypeSchema, VariantSchema,
};
use crate::value::{contents, Value, ValueView};
use vstd::arithmetic::div_mod::lemma_div_denominator;
use vstd::prelude::*;

verus! {

/// A record has as many instances as the product of the numbers of candidates of
/// its fields, whatever directives the fields carry; a record without fields has
/// one.
pub proof fn law_record_length(reg: Registry, id: int, fields: Vec<FieldSpec>)
    requires
        0 <= id < reg.schemas().len(),
        reg.schemas()[id] == TypeSchema::Record(fields),
    ensures
        reg.instances(id).len() == volume(lengths(field_grid(reg.known(id), fields@))),
        fields@.len() == 0 ==> reg.instances(id).len() == 1,
{
    lemma_all_instances_at(reg.schemas(), id);
    lemma_product_len(field_grid(reg.known(id), fields@));
    if fields@.len() == 0 {
        assert(lengths(field_grid(reg.known(id), fields@)).len() == 0);
    }
}

/// The number of instances of every variant, in order.
pub open spec fn variant_lens(known: Seq<Seq<ValueView>>, variants: Seq<VariantSchema>) -> Seq<
    nat,
> {
    Seq::new(variants.len(), |k: int| variant_instances(known, variants[k]).len())
}

/// The instances of the first `k + 1` variants are those of the first `k`, then
/// those of the variant at `k`.
proof fn lemma_sum_step(known: Seq<Seq<ValueView>>, variants: Seq<VariantSchema>, k: int)
    requires
        0 <= k < variants.len(),
    ensures
        sum_instances(known, variants.take(k + 1)) == sum_instances(known, variants.take(k))
            + variant_instances(known, variants[k]),
        sum_instances(known, variants.take(k)).len() == total(
            variant_lens(known, variants).take(k),
        ),
    decreases k,
{
    let next = variants.take(k + 1);
    assert(next.drop_last() =~= variants.take(k));
    assert(next.last() == variants[k]);
    if k > 0 {
        lemma_sum_step(known, variants, k - 1);
        lemma_total_step(variant_lens(known, variants), k - 1);
    } else {
        assert(variant_lens(known, variants).take(0).len() == 0);
    }
}

/// The instances of a tagged union begin with those of its first `k` variants.
proof fn lemma_sum_prefix(known: Seq<Seq<ValueView>>, variants: Seq<VariantSchema>, k: int)
    requires
        0 <= k <= variants.len(),
    ensures
        sum_instances(known, variants.take(k)).len() <= sum_instances(known, variants).len(),
        sum_instances(known, variants).take(sum_instances(known, variants.take(k)).len() as int)
            == sum_instances(known, variants.take(k)),
    decreases variants.len() - k,
{
    if k == variants.len() {
        assert(variants.take(k) =~= variants);
        let all = sum_instances(known, variants);
        assert(all.take(all.len() as int) =~= all);
    } else {
        lemma_sum_step(known, variants, k);
        lemma_sum_prefix(known, variants, k + 1);
        let shorter = sum_instances(known, variants.take(k));
        let longer = sum_instances(known, variants.take(k + 1));
        let all = sum_instances(known, variants);
        assert(all.take(longer.len() as int).take(shorter.len() as int) =~= all.take(
            shorter.len() as int,
        ));
        assert(longer.take(shorter.len() as int) =~= shorter);
    }
}

/// A tagged union has as many instances as its variants have together.
pub proof fn law_sum_length(reg: Registry, id: int, variants: Vec<VariantSchema>)
    requires
        0 <= id < reg.schemas().len(),
        reg.schemas()[id] == TypeSchema::Sum(variants),
    ensures
        reg.instances(id).len() == total(variant_lens(reg.known(id), variants@)),
{
    let known = reg.known(id);
    lemma_all_instances_at(reg.schemas(), id);
    let lens = variant_lens(known, variants@);
    if variants@.len() == 0 {
        assert(lens.len() == 0);
    } else {
        let n = variants@.len() as int;
        lemma_sum_step(known, variants@, n - 1);
        lemma_total_step(lens, n - 1);
        assert(variants@.take(n) =~= variants@);
        assert(lens.take(n) =~= lens);
    }
}

/// The instances of a tagged union come variant by variant, in the order of the
/// variants: after the instances of the variants before the one at `k` stand the
/// instances of the variant at `k`, each under its tag.
pub proof fn law_sum_grouped(reg: Registry, id: int, variants: Vec<VariantSchema>, k: int)
    requires
        0 <= id < reg.schemas().len(),
        reg.schemas()[id] == TypeSchema::Sum(variants),
        0 <= k < variants@.len(),
    ensures
        ({
            let lens = variant_lens(reg.known(id), variants@);
            let start = total(lens.take(k)) as int;
            &&& start + lens[k] <= reg.instances(id).len()
            &&& reg.instances(id).subrange(start, start + lens[k]) == variant_instances(
                reg.known(id),
                variants@[k],
            )
        }),
{
    let known = reg.known(id);
    lemma_all_instances_at(reg.schemas(), id);
    let lens = variant_lens(known, variants@);
    let start = total(lens.take(k)) as int;
    lemma_sum_step(known, variants@, k);
    lemma_sum_prefix(known, variants@, k + 1);
    let all = sum_instances(known, variants@);
    let upto = sum_instances(known, variants@.take(k + 1));
    assert(all.subrange(start, start + lens[k]) =~= all.take(upto.len() as int).subrange(
        start,
        start + lens[k],
    ));
    assert(upto.subrange(start, start + lens[k]) =~= variant_instances(known, variants@[k]));
}

/// Generating the same type twice gives the same instances in the same order.
pub proof fn law_idempotent(
    reg: Registry,
    id: usize,
    first: Option<Vec<Value>>,
    second: Option<Vec<Value>>,
)
    requires
        reg.generated(id, first),
        reg.generated(id, second),
    ensures
        first is Some <==> second is Some,
        first is Some ==> contents(first->Some_0@) == contents(second->Some_0@),
{
}

/// Added values come after the field's other candidates: with `n` candidates
/// before them and `m` added values the field has `n + m` candidates, the first `n`
/// are the candidates before, and the last `m` are the added values, in order.
pub proof fn law_append(known: Seq<Seq<ValueView>>, f: FieldSpec, values: Vec<Literal>)
    requires
        f.attributes.and_values == Some(values),
    ensures
        ({
            let all = candidates(known, f);
            let n = base_candidates(known, f).len() as int;
            let m = values@.len() as int;
            &&& all.len() == n + m
            &&& all.take(n) == base_candidates(known, f)
            &&& all.subrange(n, n + m) == converted_all(values@, f.element)
        }),
{
    let all = candidates(known, f);
    let n = base_candidates(known, f).len() as int;
    let m = values@.len() as int;
    assert(all.take(n) =~= base_candidates(known, f));
    assert(all.subrange(n, n + m) =~= converted_all(values@, f.element));
}

/// Without added values the candidates of a field are those of its alternative
/// source or of its type.
pub proof fn law_no_append(known: Seq<Seq<ValueView>>, f: FieldSpec)
    requires
        f.attributes.and_values is None,
    ensures
        candidates(known, f) == base_candidates(known, f),
{
    assert(candidates(known, f) =~= base_candidates(known, f));
}

/// Collections of given lengths: there is one candidate for each length, in order.
/// For the length zero it is the empty collection, whatever candidates the items
/// have. For a length `n` above zero that the items' candidates reach, it holds
/// the first `n` of those candidates, in their order; where there are fewer than
/// `n`, it holds them all.
pub proof fn law_fixed_length(
    known: Seq<Seq<ValueView>>,
    f: FieldSpec,
    lens: Vec<i64>,
    inner: ElementType,
    k: int,
)
    requires
        f.attributes.alternative_gen == Some(AlternativeGen::GenerateCollectionWithLength(lens)),
        f.element == ElementType::List(Box::new(inner)),
        0 <= k < lens@.len(),
    ensures
        ({
            let base = base_candidates(known, f);
            let items = provider(known, inner);
            let n = lens@[k] as int;
            &&& base.len() == lens@.len()
            &&& n <= 0 ==> base[k] == ValueView::List(Seq::empty())
            &&& 0 < n <= items.len() ==> base[k] == ValueView::List(items.take(n))
            &&& n > items.len() ==> base[k] == ValueView::List(items)
        }),
{
    let items = provider(known, inner);

}

/// Replacing values take the place of the candidates of the field's type: the
/// field's candidates before the added values are the replacing values, in order,
/// whatever candidates the type has.
pub proof fn law_replace(known: Seq<Seq<ValueView>>, f: FieldSpec, values: Vec<Literal>)
    requires
        f.attributes.alternative_gen == Some(AlternativeGen::WithValues(values)),
    ensures
        base_candidates(known, f) == converted_all(values@, f.element),
        base_candidates(known, f).len() == values@.len(),
{
}

/// The product of the lengths of the fields after the one at `i`: how many rows
/// pass before the field at `i` moves to its next item.
pub open spec fn stride<T>(fields: Seq<Seq<T>>, i: int) -> nat {
    volume(lengths(fields).skip(i + 1))
}

/// The last field varies fastest: the row at `k` holds one item of every field,
/// and of the field at `i` the item at `(k / stride) % length`, where `stride` is
/// the product of the lengths of the fields after it. So the last field moves to
/// its next item with every row, and a field moves only when all fields after it
/// have run through their items.
pub proof fn law_product_order<T>(fields: Seq<Seq<T>>, k: int, i: int)
    requires
        0 <= k < product(fields).len(),
        0 <= i < fields.len(),
    ensures
        product(fields)[k].len() == fields.len(),
        fields[i].len() > 0,
        stride(fields, i) > 0,
        product(fields)[k][i] == fields[i][(k / (stride(fields, i) as int)) % (
        fields[i].len() as int)],
    decreases fields.len(),
{
    let n = fields.len() as int;
    let shorter = fields.drop_last();
    let rows = product(shorter);
    let last = fields.last();
    let m = last.len() as int;
    assert(m > 0) by (nonlinear_arith)
        requires
            0 <= k < rows.len() * m,
            rows.len() >= 0,
    ;
    assert(0 <= k / m < rows.len()) by (nonlinear_arith)
        requires
            0 <= k < rows.len() * m,
            m > 0,
    ;
    lemma_product_row_len(shorter, k / m);
    if i == n - 1 {
        assert(lengths(fields).skip(i + 1).len() == 0);
        assert(k / 1 == k);
    } else {
        law_product_order(shorter, k / m, i);
        let before = stride(shorter, i) as int;
        assert(lengths(fields).skip(i + 1).drop_last() =~= lengths(shorter).skip(i + 1));
        assert(lengths(fields).skip(i + 1).last() == m);
        assert(stride(fields, i) == before * m);
        assert(before * m > 0) by (nonlinear_arith)
            requires
                before > 0,
                m > 0,
        ;
        lemma_div_denominator(k, m, before);
        assert(m * before == before * m) by (nonlinear_arith);
    }
}

} // verus!
