use crate::product::{checked_volume, volume};
use crate::schema::{
    convert_all, default_value, field_count, field_lens, has_provider, lemma_total_step,
    lengths_valid, needs_items, parse_field_attributes, parsed, provider_count, record_count,
    record_ok, refs_ok, total, variant_counts, AlternativeGen, Attribute, ConfigError,
    ElementType, ErrorKind, FieldSpec, TypeSchema, VariantSchema,
};
use vstd::prelude::*;

verus! {

/// A field as a type's description gives it: the type of its values and the
/// directives written on it, in order.
#[derive(Debug, PartialEq, Eq)]
pub struct Field {
    pub ty: ElementType,
    pub attrs: Vec<Attribute>,
}

/// A variant of a tagged union as a type's description gives it.
#[derive(Debug, PartialEq, Eq)]
pub struct Variant {
    pub ident: String,
    pub fields: Vec<Field>,
}

/// The description of a type from which its shape is derived.
#[derive(Debug, PartialEq, Eq)]
pub enum DeriveInput {
    Struct(Vec<Field>),
    Enum(Vec<Variant>),
    Union,
}

/// How many candidates the described field has, or why it is refused: a conflict
/// among its directives, or what refuses the field that they make.
pub open spec fn field_checked(counts: Seq<usize>, raw: Field) -> Result<nat, ErrorKind> {
    match parsed(raw.attrs@) {
        Err(e) => Err(e),
        Ok(attributes) => field_count(counts, FieldSpec { element: raw.ty, attributes }),
    }
}

/// `spec` is the field that `raw` describes.
pub open spec fn field_assembles(raw: Field, spec: FieldSpec) -> bool {
    &&& spec.element == raw.ty
    &&& parsed(raw.attrs@) == Ok::<_, ErrorKind>(spec.attributes)
}

/// `specs` are the fields that `fields` describe, in order.
pub open spec fn fields_assemble(fields: Seq<Field>, specs: Seq<FieldSpec>) -> bool {
    &&& specs.len() == fields.len()
    &&& forall|i: int| 0 <= i < fields.len() ==> field_assembles(fields[i], #[trigger] specs[i])
}

/// The field at `i` is the first that is refused, and `kind` is why.
pub open spec fn fields_fail_at(
    counts: Seq<usize>,
    fields: Seq<Field>,
    i: int,
    kind: ErrorKind,
) -> bool {
    &&& 0 <= i < fields.len()
    &&& field_checked(counts, fields[i]) == Err::<nat, _>(kind)
    &&& forall|j: int| 0 <= j < i ==> (#[trigger] field_checked(counts, fields[j])) is Ok
}

/// No field is refused.
pub open spec fn fields_pass(counts: Seq<usize>, fields: Seq<Field>) -> bool {
    forall|i: int| 0 <= i < fields.len() ==> (#[trigger] field_checked(counts, fields[i])) is Ok
}

/// The number of candidates of every described field, and zero for one that is
/// refused.
pub open spec fn described_lens(counts: Seq<usize>, fields: Seq<Field>) -> Seq<nat> {
    Seq::new(
        fields.len(),
        |i: int|
            match field_checked(counts, fields[i]) {
                Ok(n) => n,
                Err(_) => 0,
            },
    )
}

/// The described record is accepted: no field is refused and a `usize` can count
/// its instances.
pub open spec fn record_passes(counts: Seq<usize>, fields: Seq<Field>) -> bool {
    &&& fields_pass(counts, fields)
    &&& volume(described_lens(counts, fields)) <= usize::MAX
}

/// `e` is the error of the described record: that of its first refused field, or,
/// where no field is refused, that it has too many instances.
pub open spec fn record_error(counts: Seq<usize>, fields: Seq<Field>, e: ConfigError) -> bool {
    ||| {
        &&& e.variant is None
        &&& e.field matches Some(i)
        &&& fields_fail_at(counts, fields, i as int, e.kind)
    }
    ||| {
        &&& fields_pass(counts, fields)
        &&& volume(described_lens(counts, fields)) > usize::MAX
        &&& e == ConfigError { kind: ErrorKind::TooLarge, variant: None, field: None }
    }
}

/// The number of instances of every described variant, in order.
pub open spec fn described_counts(counts: Seq<usize>, variants: Seq<Variant>) -> Seq<nat> {
    Seq::new(variants.len(), |k: int| volume(described_lens(counts, variants[k].fields@)))
}

/// `e` is the error of the described tagged union: that it has no variant; or the
/// error of its first refused variant, with the variant's number; or, where no
/// variant is refused, that there are too many instances in all.
pub open spec fn sum_error(counts: Seq<usize>, variants: Seq<Variant>, e: ConfigError) -> bool {
    ||| {
        &&& variants.len() == 0
        &&& e == ConfigError { kind: ErrorKind::EmptySum, variant: None, field: None }
    }
    ||| {
        &&& e.variant matches Some(k)
        &&& 0 <= k < variants.len()
        &&& record_error(
            counts,
            variants[k as int].fields@,
            ConfigError { kind: e.kind, variant: None, field: e.field },
        )
        &&& forall|j: int| 0 <= j < k ==> record_passes(counts, (#[trigger] variants[j]).fields@)
    }
    ||| {
        &&& variants.len() > 0
        &&& forall|k: int|
            0 <= k < variants.len() ==> record_passes(counts, (#[trigger] variants[k]).fields@)
        &&& total(described_counts(counts, variants)) > usize::MAX
        &&& e == ConfigError { kind: ErrorKind::TooLarge, variant: None, field: None }
    }
}

/// `e` is the error of the description.
pub open spec fn derive_error(counts: Seq<usize>, input: DeriveInput, e: ConfigError) -> bool {
    match input {
        DeriveInput::Struct(fields) => record_error(counts, fields@, e),
        DeriveInput::Enum(variants) => sum_error(counts, variants@, e),
        DeriveInput::Union => e == ConfigError {
            kind: ErrorKind::UnionUnsupported,
            variant: None,
            field: None,
        },
    }
}

/// `variants` are the variants that `raw` describe, in order, under their tags.
pub open spec fn variants_assemble(raw: Seq<Variant>, variants: Seq<VariantSchema>) -> bool {
    &&& variants.len() == raw.len()
    &&& forall|k: int|
        0 <= k < raw.len() ==> {
            &&& (#[trigger] variants[k]).tag == raw[k].ident
            &&& fields_assemble(raw[k].fields@, variants[k].fields@)
        }
}

/// `schema` is the shape that `input` describes.
pub open spec fn assembles(input: DeriveInput, schema: TypeSchema) -> bool {
    match (input, schema) {
        (DeriveInput::Struct(fields), TypeSchema::Record(specs)) => fields_assemble(
            fields@,
            specs@,
        ),
        (DeriveInput::Enum(raw), TypeSchema::Sum(variants)) => variants_assemble(raw@, variants@),
        _ => false,
    }
}

/// Fields and their descriptions have the same numbers of candidates and are
/// refused alike.
pub proof fn lemma_assembled_lens(counts: Seq<usize>, fields: Seq<Field>, specs: Seq<FieldSpec>)
    requires
        fields_assemble(fields, specs),
    ensures
        described_lens(counts, fields) == field_lens(counts, specs),
        forall|i: int|
            0 <= i < fields.len() ==> #[trigger] field_checked(counts, fields[i]) == field_count(
                counts,
                specs[i],
            ),
{
    assert forall|i: int| 0 <= i < fields.len() implies #[trigger] field_checked(
        counts,
        fields[i],
    ) == field_count(counts, specs[i]) by {
        assert(field_assembles(fields[i], specs[i]));
        assert(specs[i] == FieldSpec { element: fields[i].ty, attributes: specs[i].attributes });
    }
    assert(described_lens(counts, fields) =~= field_lens(counts, specs));
}

/// Whether every registered type that `t` names has a number below `n`.
pub fn refs_known(t: &ElementType, n: usize) -> (known: bool)
    ensures
        known == refs_ok(*t, n as nat),
    decreases t,
{
    match t {
        ElementType::Optional(inner) => refs_known(inner, n),
        ElementType::List(inner) => refs_known(inner, n),
        ElementType::Custom(like, _) => refs_known(like, n),
        ElementType::Named(id) => *id < n,
        _ => true,
    }
}

/// Whether the type `t` has candidates of its own.
pub fn provides(t: &ElementType) -> (yes: bool)
    ensures
        yes == has_provider(*t),
    decreases t,
{
    match t {
        ElementType::U8 => true,
        ElementType::I8 => true,
        ElementType::Optional(inner) => provides(inner),
        ElementType::Named(_) => true,
        ElementType::Custom(_, _) => true,
        _ => false,
    }
}

/// How many candidates of its own the type `t` has, or `None` where a `usize`
/// cannot count them.
pub fn provider_len(counts: &Vec<usize>, t: &ElementType) -> (len: Option<usize>)
    ensures
        match len {
            Some(n) => n == provider_count(counts@, *t),
            None => provider_count(counts@, *t) > usize::MAX,
        },
    decreases t,
{
    match t {
        ElementType::U8 => Some(57),
        ElementType::I8 => Some(65),
        ElementType::Optional(inner) => match provider_len(counts, inner) {
            Some(n) => n.checked_add(1),
            None => None,
        },
        ElementType::Named(id) => if *id < counts.len() {
            Some(counts[*id])
        } else {
            Some(0)
        },
        ElementType::Custom(_, values) => Some(values.len()),
        _ => Some(0),
    }
}

/// Whether one of the lengths asks for items.
pub fn any_positive(lens: &Vec<i64>) -> (yes: bool)
    ensures
        yes == needs_items(lens@),
{
    let mut i: usize = 0;
    while i < lens.len()
        invariant
            i <= lens@.len(),
            forall|k: int| 0 <= k < i ==> lens@[k] <= 0,
        decreases lens@.len() - i,
    {
        if lens[i] > 0 {
            return true;
        }
        i += 1;
    }
    false
}

/// Checks a field against the registered types: how many candidates it has, or why
/// it is refused.
pub fn check_field(counts: &Vec<usize>, f: &FieldSpec) -> (result: Result<usize, ErrorKind>)
    ensures
        match result {
            Ok(n) => field_count(counts@, *f) == Ok::<nat, ErrorKind>(n as nat),
            Err(e) => field_count(counts@, *f) == Err::<nat, ErrorKind>(e),
        },
{
    if !refs_known(&f.element, counts.len()) {
        return Err(ErrorKind::UnknownType);
    }
    let base: Option<usize> = match &f.attributes.alternative_gen {
        None => {
            if !provides(&f.element) {
                return Err(ErrorKind::NoProvider);
            }
            provider_len(counts, &f.element)
        },
        Some(AlternativeGen::WithValues(values)) => {
            if convert_all(values, &f.element).is_none() {
                return Err(ErrorKind::InconvertibleLiteral);
            }
            Some(values.len())
        },
        Some(AlternativeGen::Default) => {
            if default_value(&f.element).is_none() {
                return Err(ErrorKind::NoDefault);
            }
            Some(1)
        },
        Some(AlternativeGen::GenerateCollectionWithLength(lens)) => match &f.element {
            ElementType::List(inner) => {
                if !lengths_valid(lens) {
                    return Err(ErrorKind::MalformedLength);
                }
                if any_positive(lens) && !provides(inner) {
                    return Err(ErrorKind::NoProvider);
                }
                Some(lens.len())
            },
            _ => {
                return Err(ErrorKind::NotACollection);
            },
        },
    };
    let added: usize = match &f.attributes.and_values {
        Some(values) => {
            if convert_all(values, &f.element).is_none() {
                return Err(ErrorKind::InconvertibleLiteral);
            }
            values.len()
        },
        None => 0,
    };
    match base {
        None => Err(ErrorKind::TooLarge),
        Some(n) => match n.checked_add(added) {
            Some(sum) => Ok(sum),
            None => Err(ErrorKind::TooLarge),
        },
    }
}

/// Reads and checks the fields of a record or of a variant, in order: the fields
/// and the number of candidates of each, or the error of the first refused field.
pub fn generate_init_for_fields(fields: Vec<Field>, counts: &Vec<usize>) -> (result: Result<
    (Vec<FieldSpec>, Vec<usize>),
    ConfigError,
>)
    ensures
        match result {
            Ok((specs, lens)) => {
                &&& fields_pass(counts@, fields@)
                &&& fields_assemble(fields@, specs@)
                &&& lens@.map_values(|n: usize| n as nat) == field_lens(counts@, specs@)
            },
            Err(e) => {
                &&& e.variant is None
                &&& e.field matches Some(i)
                &&& fields_fail_at(counts@, fields@, i as int, e.kind)
            },
        },
{
    let ghost all = fields@;
    let size = fields.len();
    let mut specs: Vec<FieldSpec> = Vec::new();
    let mut lens: Vec<usize> = Vec::new();
    let mut i: usize = 0;
    for field in it: fields
        invariant
            it.seq() == all,
            all.len() == size,
            i == it.index(),
            specs@.len() == i,
            lens@.len() == i,
            forall|j: int| 0 <= j < i ==> field_assembles(all[j], #[trigger] specs@[j]),
            forall|j: int|
                0 <= j < i ==> #[trigger] field_checked(counts@, all[j]) == Ok::<nat, ErrorKind>(
                    lens@[j] as nat,
                ),
    {
        let Field { ty, attrs } = field;
        let attributes = match parse_field_attributes(attrs) {
            Ok(attributes) => attributes,
            Err(kind) => {
                return Err(ConfigError { kind, variant: None, field: Some(i) });
            },
        };
        let spec = FieldSpec { element: ty, attributes };
        match check_field(counts, &spec) {
            Ok(n) => {
                lens.push(n);
            },
            Err(kind) => {
                return Err(ConfigError { kind, variant: None, field: Some(i) });
            },
        }
        specs.push(spec);
        i += 1;
    }
    proof {
        assert(fields_assemble(all, specs@));
        lemma_assembled_lens(counts@, all, specs@);
        assert(lens@.map_values(|n: usize| n as nat) =~= field_lens(counts@, specs@));
    }
    Ok((specs, lens))
}

/// Derives the fields of a record and counts its instances.
fn derive_fields(fields: Vec<Field>, counts: &Vec<usize>) -> (result: Result<
    (Vec<FieldSpec>, usize),
    ConfigError,
>)
    ensures
        match result {
            Ok((specs, n)) => {
                &&& record_passes(counts@, fields@)
                &&& fields_assemble(fields@, specs@)
                &&& record_ok(counts@, specs@)
                &&& n == record_count(counts@, specs@)
            },
            Err(e) => record_error(counts@, fields@, e),
        },
{
    match generate_init_for_fields(fields, counts) {
        Err(e) => Err(e),
        Ok((specs, lens)) => {
            proof {
                lemma_assembled_lens(counts@, fields@, specs@);
                assert forall|i: int| 0 <= i < specs@.len() implies (#[trigger] field_count(
                    counts@,
                    specs@[i],
                )) is Ok by {
                    assert(field_checked(counts@, fields@[i]) is Ok);
                }
            }
            match checked_volume(&lens) {
                Some(n) => Ok((specs, n)),
                None => Err(ConfigError { kind: ErrorKind::TooLarge, variant: None, field: None }),
            }
        },
    }
}

/// Derives the shape of a record from its fields, and counts its instances.
pub fn derive_struct(fields: Vec<Field>, counts: &Vec<usize>) -> (result: Result<
    (TypeSchema, usize),
    ConfigError,
>)
    ensures
        match result {
            Ok((schema, n)) => {
                &&& record_passes(counts@, fields@)
                &&& assembles(DeriveInput::Struct(fields), schema)
                &&& schema.valid(counts@)
                &&& n == schema.count(counts@)
            },
            Err(e) => record_error(counts@, fields@, e),
        },
{
    match derive_fields(fields, counts) {
        Ok((specs, n)) => Ok((TypeSchema::Record(specs), n)),
        Err(e) => Err(e),
    }
}

/// Derives one variant of a tagged union, under its tag, and counts its instances.
pub fn generate_build_for_variant(variant: Variant, counts: &Vec<usize>) -> (result: Result<
    (VariantSchema, usize),
    ConfigError,
>)
    ensures
        match result {
            Ok((built, n)) => {
                &&& record_passes(counts@, variant.fields@)
                &&& built.tag == variant.ident
                &&& fields_assemble(variant.fields@, built.fields@)
                &&& record_ok(counts@, built.fields@)
                &&& n == record_count(counts@, built.fields@)
            },
            Err(e) => record_error(counts@, variant.fields@, e),
        },
{
    let Variant { ident, fields } = variant;
    match derive_fields(fields, counts) {
        Ok((specs, n)) => Ok((VariantSchema { tag: ident, fields: specs }, n)),
        Err(e) => Err(e),
    }
}

/// Derives the shape of a tagged union from its variants, and counts its instances.
/// A tagged union without a variant has no instance and is refused.
pub fn derive_enum(variants: Vec<Variant>, counts: &Vec<usize>) -> (result: Result<
    (TypeSchema, usize),
    ConfigError,
>)
    ensures
        match result {
            Ok((schema, n)) => {
                &&& assembles(DeriveInput::Enum(variants), schema)
                &&& schema.valid(counts@)
                &&& n == schema.count(counts@)
            },
            Err(e) => sum_error(counts@, variants@, e),
        },
{
    if variants.len() == 0 {
        return Err(ConfigError { kind: ErrorKind::EmptySum, variant: None, field: None });
    }
    let ghost all = variants@;
    let mut built: Vec<VariantSchema> = Vec::new();
    let mut sum: Option<usize> = Some(0);
    let mut k: usize = 0;
    proof {
        assert(variant_counts(counts@, built@).take(0).len() == 0);
        assert(described_counts(counts@, all).take(0).len() == 0);
    }
    for variant in it: variants
        invariant
            it.seq() == all,
            all.len() <= usize::MAX,
            k == it.index(),
            built@.len() == k,
            forall|j: int|
                0 <= j < k ==> {
                    &&& (#[trigger] built@[j]).tag == all[j].ident
                    &&& fields_assemble(all[j].fields@, built@[j].fields@)
                    &&& record_ok(counts@, built@[j].fields@)
                },
            forall|j: int| 0 <= j < k ==> record_passes(counts@, (#[trigger] all[j]).fields@),
            variant_counts(counts@, built@) == described_counts(counts@, all).take(k as int),
            match sum {
                Some(n) => n == total(described_counts(counts@, all).take(k as int)),
                None => total(described_counts(counts@, all).take(k as int)) > usize::MAX,
            },
    {
        let ghost before = built@;
        let (one, n) = match generate_build_for_variant(variant, counts) {
            Ok(pair) => pair,
            Err(e) => {
                return Err(ConfigError { kind: e.kind, variant: Some(k), field: e.field });
            },
        };
        proof {
            lemma_assembled_lens(counts@, all[k as int].fields@, one.fields@);
            lemma_total_step(described_counts(counts@, all), k as int);
        }
        sum =
        match sum {
            Some(s) => s.checked_add(n),
            None => None,
        };
        built.push(one);
        proof {
            assert(variant_counts(counts@, built@) =~= described_counts(counts@, all).take(k + 1))
                by {
                assert forall|j: int| 0 <= j < k + 1 implies variant_counts(counts@, built@)[j]
                    == described_counts(counts@, all)[j] by {
                    if j < k {
                        assert(built@[j] == before[j]);
                        assert(variant_counts(counts@, before)[j] == described_counts(
                            counts@,
                            all,
                        ).take(k as int)[j]);
                    }
                }
            }
        }
        k += 1;
    }
    proof {
        assert(described_counts(counts@, all).take(k as int) =~= described_counts(counts@, all));
    }
    match sum {
        Some(n) => Ok((TypeSchema::Sum(built), n)),
        None => Err(ConfigError { kind: ErrorKind::TooLarge, variant: None, field: None }),
    }
}

/// Derives the shape of a type from its description, against the numbers of
/// instances of the types registered so far, and counts its instances.
///
/// A record and a tagged union are derived; an untagged union is refused.
pub fn alles_derive(input: DeriveInput, counts: &Vec<usize>) -> (result: Result<
    (TypeSchema, usize),
    ConfigError,
>)
    ensures
        match result {
            Ok((schema, n)) => {
                &&& assembles(input, schema)
                &&& schema.valid(counts@)
                &&& n == schema.count(counts@)
            },
            Err(e) => derive_error(counts@, input, e),
        },
{
    match input {
        DeriveInput::Struct(fields) => derive_struct(fields, counts),
        DeriveInput::Enum(variants) => derive_enum(variants, counts),
        DeriveInput::Union => Err(
            ConfigError { kind: ErrorKind::UnionUnsupported, variant: None, field: None },
        ),
    }
}

} // verus!
