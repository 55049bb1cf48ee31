use crate::assembly::{
    alles_derive, any_positive, assembles, check_field, derive_error, DeriveInput,
};
use crate::engine::{
    all_instances, all_valid, base_candidates, candidates, counted, field_grid, first_items,
    lemma_all_counted, lemma_all_instances_at, lemma_all_instances_len,
    lemma_all_instances_prefix, lemma_record_len, provider, record_instances, record_rows,
    sum_instances, variant_instances,
};
use crate::product::{grid, product_rows};
use crate::provider::Alles;
use crate::schema::{
    convert_all, default_value, field_count, lengths_ok, record_ok, refs_ok, AlternativeGen,
    ConfigError, ElementType, FieldSpec, TypeSchema,
};
use crate::value::{content, contents, duplicate_all, lemma_items_content, Value, ValueView};
use vstd::prelude::*;

verus! {

/// The registered types, each with the number of its instances.
///
/// A type is registered after the types that its fields name, and gets the next
/// number; so no type can name itself, directly or through another.
pub struct Registry {
    types: Vec<TypeSchema>,
    counts: Vec<usize>,
}

/// The first `k` of some valid types are valid.
pub proof fn lemma_valid_prefix(types: Seq<TypeSchema>, counts: Seq<usize>, k: int)
    requires
        all_valid(types, counts),
        0 <= k <= types.len(),
    ensures
        all_valid(types.take(k), counts.take(k)),
        counted(all_instances(types.take(k)), counts.take(k)),
{
    assert forall|id: int| 0 <= id < k implies {
        &&& (#[trigger] types.take(k)[id]).valid(counts.take(k).take(id))
        &&& counts.take(k)[id] == types.take(k)[id].count(counts.take(k).take(id))
    } by {
        assert(counts.take(k).take(id) =~= counts.take(id));
        assert(types[id].valid(counts.take(id)));
    }
    lemma_all_counted(types.take(k), counts.take(k));
}

/// Valid types stay valid with one more type that is valid after them.
pub proof fn lemma_valid_pushed(
    types: Seq<TypeSchema>,
    counts: Seq<usize>,
    schema: TypeSchema,
    n: usize,
)
    requires
        all_valid(types, counts),
        schema.valid(counts),
        n == schema.count(counts),
    ensures
        all_valid(types.push(schema), counts.push(n)),
{
    let more = types.push(schema);
    let sizes = counts.push(n);
    assert forall|id: int| 0 <= id < more.len() implies {
        &&& (#[trigger] more[id]).valid(sizes.take(id))
        &&& sizes[id] == more[id].count(sizes.take(id))
    } by {
        if id < types.len() {
            assert(sizes.take(id) =~= counts.take(id));
            assert(types[id].valid(counts.take(id)));
        } else {
            assert(sizes.take(id) =~= counts);
        }
    }
}

impl Registry {
    /// The shapes of the registered types, in the order of their numbers.
    pub closed spec fn schemas(&self) -> Seq<TypeSchema> {
        self.types@
    }

    /// The number of instances that is kept for every registered type.
    pub closed spec fn sizes(&self) -> Seq<usize> {
        self.counts@
    }

    /// Every registered type is valid after the types before it, and the number
    /// kept for it is the number of its instances.
    pub open spec fn wf(&self) -> bool {
        all_valid(self.schemas(), self.sizes())
    }

    /// The instances of the registered type with the number `id`.
    pub open spec fn instances(&self, id: int) -> Seq<ValueView> {
        all_instances(self.schemas())[id]
    }

    /// The instances of the types with a number below `limit`.
    pub open spec fn known(&self, limit: int) -> Seq<Seq<ValueView>> {
        all_instances(self.schemas().take(limit))
    }

    /// `result` is what generating the type with the number `id` gives: the
    /// instances of that type, or nothing where no type has that number.
    pub open spec fn generated(&self, id: usize, result: Option<Vec<Value>>) -> bool {
        match result {
            Some(values) => id < self.schemas().len() && contents(values@) == self.instances(
                id as int,
            ),
            None => id >= self.schemas().len(),
        }
    }

    /// A registry without types.
    pub fn new() -> (reg: Registry)
        ensures
            reg.wf(),
            reg.schemas().len() == 0,
    {
        Registry { types: Vec::new(), counts: Vec::new() }
    }

    /// How many types are registered.
    pub fn len(&self) -> (n: usize)
        ensures
            n == self.schemas().len(),
    {
        self.types.len()
    }

    /// The number of instances of every registered type.
    pub fn counts(&self) -> (counts: &Vec<usize>)
        ensures
            counts@ == self.sizes(),
    {
        &self.counts
    }

    /// Registers the type that `input` describes, after the types registered so
    /// far, and gives its number: the next one. A description that is refused
    /// leaves the registry as it was.
    pub fn register(&mut self, input: DeriveInput) -> (result: Result<usize, ConfigError>)
        requires
            old(self).wf(),
        ensures
            final(self).wf(),
            match result {
                Ok(id) => {
                    &&& id == old(self).schemas().len()
                    &&& final(self).schemas().len() == id + 1
                    &&& final(self).schemas().take(id as int) == old(self).schemas()
                    &&& final(self).sizes().take(id as int) == old(self).sizes()
                    &&& assembles(input, final(self).schemas()[id as int])
                },
                Err(e) => {
                    &&& derive_error(old(self).sizes(), input, e)
                    &&& final(self).schemas() == old(self).schemas()
                    &&& final(self).sizes() == old(self).sizes()
                },
            },
    {
        match alles_derive(input, &self.counts) {
            Ok((schema, n)) => {
                let id = self.types.len();
                let ghost types = self.types@;
                let ghost counts = self.counts@;
                self.types.push(schema);
                self.counts.push(n);
                proof {
                    lemma_valid_pushed(types, counts, schema, n);
                    assert(self.types@.take(id as int) =~= types);
                    assert(self.counts@.take(id as int) =~= counts);
                }
                Ok(id)
            },
            Err(e) => Err(e),
        }
    }

    /// How many instances the type with the number `id` has, or `None` where no
    /// type has that number.
    pub fn count(&self, id: usize) -> (result: Option<usize>)
        requires
            self.wf(),
        ensures
            match result {
                Some(n) => id < self.schemas().len() && n == self.instances(id as int).len(),
                None => id >= self.schemas().len(),
            },
    {
        if id < self.counts.len() {
            proof {
                lemma_all_counted(self.schemas(), self.sizes());
            }
            Some(self.counts[id])
        } else {
            None
        }
    }

    /// The instances of the type with the number `id`, or `None` where no type has
    /// that number.
    ///
    /// The list is made anew by every call and is the same every time: the rows of
    /// a record in the order of the cartesian product of its fields' candidates, the
    /// last field varying fastest; the instances of a tagged union variant by
    /// variant.
    pub fn generate(&self, id: usize) -> (result: Option<Vec<Value>>)
        requires
            self.wf(),
        ensures
            self.generated(id, result),
    {
        if id < self.types.len() {
            Some(self.instances_of(id))
        } else {
            None
        }
    }

    /// The candidates of a field whose type may name any registered type, or `None`
    /// where the field is refused: the candidates of its alternative source, or of
    /// its type where it has no such source, and after them the added values.
    pub fn resolve(&self, f: &FieldSpec) -> (result: Option<Vec<Value>>)
        requires
            self.wf(),
        ensures
            match result {
                Some(values) => {
                    &&& field_count(self.sizes(), *f) is Ok
                    &&& contents(values@) == candidates(all_instances(self.schemas()), *f)
                },
                None => field_count(self.sizes(), *f) is Err,
            },
    {
        proof {
            assert(self.sizes().take(self.sizes().len() as int) =~= self.sizes());
            assert(self.schemas().take(self.schemas().len() as int) =~= self.schemas());
        }
        match check_field(&self.counts, f) {
            Ok(_) => Some(self.field_values(f, self.types.len())),
            Err(_) => None,
        }
    }

    /// The candidates that the type `t` has of its own.
    fn provider_values(&self, t: &ElementType, limit: usize) -> (out: Vec<Value>)
        requires
            self.wf(),
            limit <= self.schemas().len(),
            refs_ok(*t, limit as nat),
        ensures
            contents(out@) == provider(self.known(limit as int), *t),
        decreases limit, 0nat, t,
    {
        match t {
            ElementType::U8 => {
                let raw = <u8 as Alles>::generate();
                let mut out: Vec<Value> = Vec::new();
                let mut i: usize = 0;
                while i < raw.len()
                    invariant
                        i <= raw@.len(),
                        out@.len() == i,
                        forall|k: int| 0 <= k < i ==> content(out@[k]) == ValueView::U8(raw@[k]),
                    decreases raw@.len() - i,
                {
                    out.push(Value::U8(raw[i]));
                    i += 1;
                }
                assert(contents(out@) =~= raw@.map_values(|n: u8| ValueView::U8(n)));
                out
            },
            ElementType::I8 => {
                let raw = <i8 as Alles>::generate();
                let mut out: Vec<Value> = Vec::new();
                let mut i: usize = 0;
                while i < raw.len()
                    invariant
                        i <= raw@.len(),
                        out@.len() == i,
                        forall|k: int| 0 <= k < i ==> content(out@[k]) == ValueView::I8(raw@[k]),
                    decreases raw@.len() - i,
                {
                    out.push(Value::I8(raw[i]));
                    i += 1;
                }
                assert(contents(out@) =~= raw@.map_values(|n: i8| ValueView::I8(n)));
                out
            },
            ElementType::Optional(inner) => {
                let items = self.provider_values(inner, limit);
                let ghost all = items@;
                let mut out: Vec<Value> = Vec::new();
                out.push(Value::Absent);
                for item in it: items
                    invariant
                        it.seq() == all,
                        out@.len() == it.index() + 1,
                        content(out@[0]) == ValueView::Absent,
                        forall|k: int|
                            0 <= k < it.index() ==> content(#[trigger] out@[k + 1])
                                == ValueView::Present(Box::new(content(all[k]))),
                {
                    out.push(Value::Present(Box::new(item)));
                }
                assert(contents(out@) =~= seq![ValueView::Absent] + contents(all).map_values(
                    |v: ValueView| ValueView::Present(Box::new(v)),
                )) by {
                    let want = seq![ValueView::Absent] + contents(all).map_values(
                        |v: ValueView| ValueView::Present(Box::new(v)),
                    );
                    assert(contents(out@).len() == want.len());
                    assert forall|k: int| 0 <= k < want.len() implies contents(out@)[k]
                        == want[k] by {
                        if k > 0 {
                            assert(content(out@[(k - 1) + 1]) == ValueView::Present(
                                Box::new(content(all[k - 1])),
                            ));
                        }
                    }
                }
                out
            },
            ElementType::Named(id) => {
                proof {
                    lemma_all_instances_prefix(self.schemas(), limit as int);
                    lemma_all_instances_len(self.schemas());
                }
                self.instances_of(*id)
            },
            ElementType::Custom(_, values) => duplicate_all(values),
            _ => {
                let out: Vec<Value> = Vec::new();
                assert(contents(out@) =~= Seq::<ValueView>::empty());
                out
            },
        }
    }

    /// One collection for each length, filled with the first candidates of `inner`.
    fn collections(&self, lens: &Vec<i64>, inner: &ElementType, limit: usize) -> (out: Vec<Value>)
        requires
            self.wf(),
            lengths_ok(lens@),
            limit <= self.schemas().len(),
            refs_ok(*inner, limit as nat),
        ensures
            out@.len() == lens@.len(),
            forall|k: int|
                0 <= k < lens@.len() ==> content(#[trigger] out@[k]) == ValueView::List(
                    first_items(provider(self.known(limit as int), *inner), lens@[k] as int),
                ),
        decreases limit, 1nat,
    {
        let items: Vec<Value> = if any_positive(lens) {
            self.provider_values(inner, limit)
        } else {
            Vec::new()
        };
        let ghost full = provider(self.known(limit as int), *inner);
        let mut out: Vec<Value> = Vec::new();
        let mut k: usize = 0;
        while k < lens.len()
            invariant
                k <= lens@.len(),
                out@.len() == k,
                lengths_ok(lens@),
                contents(items@) == full || forall|j: int| 0 <= j < lens@.len() ==> lens@[j] == 0,
                contents(items@) == full || items@.len() == 0,
                forall|j: int|
                    0 <= j < k ==> content(#[trigger] out@[j]) == ValueView::List(
                        first_items(full, lens@[j] as int),
                    ),
            decreases lens@.len() - k,
        {
            let want: usize = lens[k] as usize;
            let take = if want <= items.len() {
                want
            } else {
                items.len()
            };
            let mut picked: Vec<Value> = Vec::new();
            let mut i: usize = 0;
            while i < take
                invariant
                    i <= take <= items@.len(),
                    picked@.len() == i,
                    forall|j: int| 0 <= j < i ==> content(picked@[j]) == content(items@[j]),
                decreases take - i,
            {
                picked.push(items[i].duplicate());
                i += 1;
            }
            proof {
                lemma_items_content(picked);
                assert(contents(items@).len() == items@.len());
                if contents(items@) == full {
                    assert(contents(picked@) =~= first_items(full, want as int));
                } else {
                    assert(want == 0);
                    assert(contents(picked@) =~= first_items(full, want as int));
                }
            }
            out.push(Value::List(picked));
            k += 1;
        }
        out
    }

    /// The candidates of a field.
    fn field_values(&self, f: &FieldSpec, limit: usize) -> (out: Vec<Value>)
        requires
            self.wf(),
            limit <= self.schemas().len(),
            field_count(self.sizes().take(limit as int), *f) is Ok,
        ensures
            contents(out@) == candidates(self.known(limit as int), *f),
        decreases limit, 2nat,
    {
        let ghost known = self.known(limit as int);
        let mut out: Vec<Value> = match &f.attributes.alternative_gen {
            None => self.provider_values(&f.element, limit),
            Some(AlternativeGen::WithValues(values)) => match convert_all(values, &f.element) {
                Some(converted) => converted,
                None => Vec::new(),
            },
            Some(AlternativeGen::Default) => {
                let mut one: Vec<Value> = Vec::new();
                if let Some(v) = default_value(&f.element) {
                    one.push(v);
                }
                assert(contents(one@) =~= base_candidates(known, *f));
                one
            },
            Some(AlternativeGen::GenerateCollectionWithLength(lens)) => match &f.element {
                ElementType::List(inner) => {
                    let lists = self.collections(lens, inner, limit);
                    assert(contents(lists@) =~= base_candidates(known, *f));
                    lists
                },
                _ => Vec::new(),
            },
        };
        assert(contents(out@) == base_candidates(known, *f));
        if let Some(values) = &f.attributes.and_values {
            if let Some(converted) = convert_all(values, &f.element) {
                let ghost base = out@;
                let ghost extra = converted@;
                for item in it: converted
                    invariant
                        it.seq() == extra,
                        out@.len() == base.len() + it.index(),
                        contents(out@) == contents(base) + contents(extra.take(it.index() as int)),
                {
                    let ghost before = out@;
                    out.push(item);
                    proof {
                        let want = contents(base) + contents(extra.take(it.index() + 1));
                        assert(contents(out@).len() == want.len());
                        assert forall|k: int| 0 <= k < want.len() implies contents(out@)[k]
                            == want[k] by {
                            if k < before.len() {
                                assert(contents(before)[k] == (contents(base) + contents(
                                    extra.take(it.index() as int),
                                ))[k]);
                            }
                        }
                        assert(contents(out@) =~= want);
                    }
                }
                assert(extra.take(extra.len() as int) =~= extra);
            }
        } else {
            assert(contents(out@) =~= candidates(known, *f));
        }
        out
    }

    /// The rows of a record, the last field varying fastest.
    fn rows_of(&self, fields: &Vec<FieldSpec>, limit: usize) -> (rows: Vec<Vec<Value>>)
        requires
            self.wf(),
            limit <= self.schemas().len(),
            record_ok(self.sizes().take(limit as int), fields@),
        ensures
            grid(rows@) == record_rows(self.known(limit as int), fields@),
        decreases limit, 3nat,
    {
        let ghost known = self.known(limit as int);
        let ghost counts = self.sizes().take(limit as int);
        let mut sources: Vec<Vec<Value>> = Vec::new();
        let mut i: usize = 0;
        while i < fields.len()
            invariant
                self.wf(),
                limit <= self.schemas().len(),
                known == self.known(limit as int),
                counts == self.sizes().take(limit as int),
                record_ok(counts, fields@),
                i <= fields@.len(),
                sources@.len() == i,
                forall|j: int|
                    0 <= j < i ==> contents((#[trigger] sources@[j])@) == candidates(
                        known,
                        fields@[j],
                    ),
            decreases fields@.len() - i,
        {
            assert(field_count(counts, fields@[i as int]) is Ok);
            let values = self.field_values(&fields[i], limit);
            sources.push(values);
            i += 1;
        }
        proof {
            assert(grid(sources@) =~= field_grid(known, fields@));
            lemma_valid_prefix(self.schemas(), self.sizes(), limit as int);
            lemma_record_len(known, counts, fields@);
        }
        product_rows(&sources)
    }

    /// The instances of the registered type with the number `id`.
    fn instances_of(&self, id: usize) -> (out: Vec<Value>)
        requires
            self.wf(),
            id < self.schemas().len(),
        ensures
            contents(out@) == self.instances(id as int),
        decreases id, 4nat,
    {
        let ghost known = self.known(id as int);
        proof {
            lemma_all_instances_at(self.schemas(), id as int);
            assert(self.schemas()[id as int].valid(self.sizes().take(id as int)));
        }
        match &self.types[id] {
            TypeSchema::Record(fields) => {
                let rows = self.rows_of(fields, id);
                let ghost all = rows@;
                let mut out: Vec<Value> = Vec::new();
                for row in it: rows
                    invariant
                        it.seq() == all,
                        out@.len() == it.index(),
                        forall|k: int|
                            0 <= k < it.index() ==> content(#[trigger] out@[k])
                                == ValueView::Record(contents(all[k]@)),
                {
                    proof {
                        lemma_items_content(row);
                    }
                    out.push(Value::Record(row));
                }
                assert(contents(out@) =~= record_instances(known, fields@)) by {
                    assert(grid(all).len() == all.len());
                    assert forall|k: int| 0 <= k < all.len() implies contents(out@)[k]
                        == record_instances(known, fields@)[k] by {
                        assert(grid(all)[k] == contents(all[k]@));
                    }
                }
                out
            },
            TypeSchema::Sum(variants) => {
                let mut out: Vec<Value> = Vec::new();
                let mut v: usize = 0;
                proof {
                    assert(variants@.take(0).len() == 0);
                    assert(contents(out@) =~= sum_instances(known, variants@.take(0)));
                }
                while v < variants.len()
                    invariant
                        self.wf(),
                        id < self.schemas().len(),
                        known == self.known(id as int),
                        self.schemas()[id as int] == TypeSchema::Sum(*variants),
                        self.schemas()[id as int].valid(self.sizes().take(id as int)),
                        v <= variants@.len(),
                        contents(out@) == sum_instances(known, variants@.take(v as int)),
                    decreases variants@.len() - v,
                {
                    let variant = &variants[v];
                    assert(record_ok(self.sizes().take(id as int), variants@[v as int].fields@));
                    let rows = self.rows_of(&variant.fields, id);
                    let ghost all = rows@;
                    let ghost before = out@;
                    for row in it: rows
                        invariant
                            it.seq() == all,
                            out@.len() == before.len() + it.index(),
                            forall|k: int| 0 <= k < before.len() ==> out@[k] == before[k],
                            forall|k: int|
                                0 <= k < it.index() ==> content(
                                    #[trigger] out@[before.len() + k],
                                ) == ValueView::Variant(variant.tag@, contents(all[k]@)),
                    {
                        proof {
                            lemma_items_content(row);
                        }
                        let tag = variant.tag.clone();
                        out.push(Value::Variant(tag, row));
                    }
                    proof {
                        let next = variants@.take(v + 1);
                        assert(next.drop_last() =~= variants@.take(v as int));
                        assert(next.last() == variants@[v as int]);
                        assert(grid(all).len() == all.len());
                        assert forall|k: int| 0 <= k < all.len() implies content(
                            out@[before.len() + k],
                        ) == variant_instances(known, *variant)[k] by {
                            assert(grid(all)[k] == contents(all[k]@));
                        }
                        assert(contents(out@) =~= contents(before) + variant_instances(
                            known,
                            *variant,
                        ));
                    }
                    v += 1;
                }
                proof {
                    assert(variants@.take(v as int) =~= variants@);
                }
                out
            },
        }
    }
}

} // verus!
