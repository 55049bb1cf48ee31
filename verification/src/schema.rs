use crate::product::volume;
use crate::provider::{i8_candidates, u8_candidates};
use crate::value::{content, contents, Value, ValueView};
use vstd::prelude::*;

verus! {

/// The type of a field's values.
#[derive(Debug, PartialEq, Eq)]
pub enum ElementType {
    /// An unsigned byte, with the candidates of `u8`.
    U8,
    /// A signed byte, with the candidates of `i8`.
    I8,
    /// A boolean. It has a default value and no candidates of its own.
    Bool,
    /// A string. It has a default value and no candidates of its own.
    Text,
    /// A value that may be absent: absent first, then every candidate of the inner
    /// type as present.
    Optional(Box<ElementType>),
    /// A collection of values of the inner type. It has no candidates of its own.
    List(Box<ElementType>),
    /// A registered type, by the number that registering it gave.
    Named(usize),
    /// A type with candidates of its own choosing: its values are written like
    /// those of the first type, and its candidates are the given values, in order.
    Custom(Box<ElementType>, Vec<Value>),
}

/// A value as it is written in a directive, before it has the type of a field.
#[derive(Debug, PartialEq, Eq)]
pub enum Literal {
    Int(i64),
    Bool(bool),
    Text(String),
}

/// One directive on a field, as the description of a type lists them.
#[derive(Debug, PartialEq, Eq)]
pub enum Attribute {
    /// Replace the candidates of the field's type by these values.
    WithValues(Vec<Literal>),
    /// Use the default value of the field's type, and nothing else.
    WithDefault,
    /// For a field that is a collection: one collection for each of these lengths,
    /// filled with the first candidates of the collection's items.
    GenerateCollectionLength(Vec<i64>),
    /// Add these values after the field's other candidates.
    AndValues(Vec<Literal>),
}

/// What takes the place of the candidates of a field's type.
#[derive(Debug, PartialEq, Eq)]
pub enum AlternativeGen {
    /// These values, each with the type of the field.
    WithValues(Vec<Literal>),
    /// One collection for each of these lengths, none of which is negative.
    GenerateCollectionWithLength(Vec<i64>),
    /// The default value of the field's type.
    Default,
}

/// The directives of one field: at most one alternative source of candidates, and
/// the values that come after the candidates, if any.
#[derive(Debug, PartialEq, Eq)]
pub struct FieldAttributes {
    pub and_values: Option<Vec<Literal>>,
    pub alternative_gen: Option<AlternativeGen>,
}

/// A field of a record: the type of its values and its directives.
#[derive(Debug, PartialEq, Eq)]
pub struct FieldSpec {
    pub element: ElementType,
    pub attributes: FieldAttributes,
}

/// One variant of a tagged union: its tag and its fields.
#[derive(Debug, PartialEq, Eq)]
pub struct VariantSchema {
    pub tag: String,
    pub fields: Vec<FieldSpec>,
}

/// The shape of a registered type.
#[derive(Debug, PartialEq, Eq)]
pub enum TypeSchema {
    /// A record: its fields, in order.
    Record(Vec<FieldSpec>),
    /// A tagged union: its variants, in order, of which there is at least one.
    Sum(Vec<VariantSchema>),
}

/// Why a description of a type is refused.
#[derive(Debug, Clone, Copy, PartialEq, Eq)]
pub enum ErrorKind {
    /// A field has more than one alternative source of candidates.
    ConflictingDirectives,
    /// A length of a collection is negative or more than a `usize` can hold.
    MalformedLength,
    /// A value of a directive cannot have the type of the field.
    InconvertibleLiteral,
    /// The field's type has no candidates of its own and no directive gives any.
    NoProvider,
    /// The field's type has no default value.
    NoDefault,
    /// Collections of given lengths are asked of a field that is no collection.
    NotACollection,
    /// The field names a type that is not registered.
    UnknownType,
    /// A tagged union has no variant.
    EmptySum,
    /// The description is an untagged union.
    UnionUnsupported,
    /// There would be more instances than a `usize` can count.
    TooLarge,
}

/// A refused description: why, and in which variant and field, counted from zero.
#[derive(Debug, Clone, Copy, PartialEq, Eq)]
pub struct ConfigError {
    pub kind: ErrorKind,
    pub variant: Option<usize>,
    pub field: Option<usize>,
}

/// Every length is one that a collection can have: not negative, and not more than
/// a `usize` can hold.
pub open spec fn lengths_ok(lens: Seq<i64>) -> bool {
    forall|i: int| 0 <= i < lens.len() ==> 0 <= #[trigger] lens[i] <= usize::MAX
}

/// The directives of a field, from the list as written: the one alternative source,
/// if any, and the last list of added values. A second alternative source is a
/// conflict; lengths that no collection can have are malformed.
pub open spec fn parsed(attrs: Seq<Attribute>) -> Result<FieldAttributes, ErrorKind>
    decreases attrs.len(),
{
    if attrs.len() == 0 {
        Ok(FieldAttributes { and_values: None, alternative_gen: None })
    } else {
        match parsed(attrs.drop_last()) {
            Err(e) => Err(e),
            Ok(before) => match attrs.last() {
                Attribute::AndValues(values) => Ok(
                    FieldAttributes {
                        and_values: Some(values),
                        alternative_gen: before.alternative_gen,
                    },
                ),
                Attribute::WithValues(values) => with_alternative(
                    before,
                    AlternativeGen::WithValues(values),
                ),
                Attribute::WithDefault => with_alternative(before, AlternativeGen::Default),
                Attribute::GenerateCollectionLength(lens) => if before.alternative_gen is None
                    && !lengths_ok(lens@) {
                    Err(ErrorKind::MalformedLength)
                } else {
                    with_alternative(before, AlternativeGen::GenerateCollectionWithLength(lens))
                },
            },
        }
    }
}

/// `before` with the alternative source `alt`, which must be its first.
pub open spec fn with_alternative(before: FieldAttributes, alt: AlternativeGen) -> Result<
    FieldAttributes,
    ErrorKind,
> {
    if before.alternative_gen is Some {
        Err(ErrorKind::ConflictingDirectives)
    } else {
        Ok(FieldAttributes { and_values: before.and_values, alternative_gen: Some(alt) })
    }
}

/// An error among the first directives is the error of the whole list.
pub proof fn lemma_parsed_error_stays(attrs: Seq<Attribute>, k: int)
    requires
        0 <= k <= attrs.len(),
        parsed(attrs.take(k)) is Err,
    ensures
        parsed(attrs) == parsed(attrs.take(k)),
    decreases attrs.len() - k,
{
    if k == attrs.len() {
        assert(attrs.take(k) =~= attrs);
    } else {
        assert(attrs.take(k + 1).drop_last() =~= attrs.take(k));
        lemma_parsed_error_stays(attrs, k + 1);
    }
}

/// Whether every length is one that a collection can have.
pub fn lengths_valid(lens: &Vec<i64>) -> (valid: bool)
    ensures
        valid == lengths_ok(lens@),
{
    let mut i: usize = 0;
    while i < lens.len()
        invariant
            i <= lens@.len(),
            forall|k: int| 0 <= k < i ==> 0 <= #[trigger] lens@[k] <= usize::MAX,
        decreases lens@.len() - i,
    {
        let n = lens[i];
        if n < 0 || n as u64 > usize::MAX as u64 {
            return false;
        }
        i += 1;
    }
    true
}

/// Reads the directives of one field.
///
/// At most one of `WithValues`, `WithDefault` and `GenerateCollectionLength` may
/// stand on a field; of several `AndValues` the last one counts. The first
/// directive that breaks this, or that asks for a length that no collection can
/// have, ends the reading with its error.
pub fn parse_field_attributes(attrs: Vec<Attribute>) -> (result: Result<
    FieldAttributes,
    ErrorKind,
>)
    ensures
        result == parsed(attrs@),
{
    let ghost all = attrs@;
    let mut and_values: Option<Vec<Literal>> = None;
    let mut alternative_gen: Option<AlternativeGen> = None;
    proof {
        assert(all.take(0).len() == 0);
    }
    for attr in it: attrs
        invariant
            it.seq() == all,
            parsed(all.take(it.index() as int)) == Ok::<FieldAttributes, ErrorKind>(
                FieldAttributes { and_values, alternative_gen },
            ),
    {
        proof {
            assert(all.take(it.index() + 1).drop_last() =~= all.take(it.index() as int));
            assert(all.take(it.index() + 1).last() == attr);
        }
        let found = match attr {
            Attribute::AndValues(values) => {
                and_values = Some(values);
                None
            },
            Attribute::WithValues(values) => Some(AlternativeGen::WithValues(values)),
            Attribute::WithDefault => Some(AlternativeGen::Default),
            Attribute::GenerateCollectionLength(lens) => Some(
                AlternativeGen::GenerateCollectionWithLength(lens),
            ),
        };
        if let Some(alt) = found {
            if alternative_gen.is_some() {
                proof {
                    lemma_parsed_error_stays(all, it.index() + 1);
                }
                return Err(ErrorKind::ConflictingDirectives);
            }
            if let AlternativeGen::GenerateCollectionWithLength(lens) = &alt {
                if !lengths_valid(lens) {
                    proof {
                        lemma_parsed_error_stays(all, it.index() + 1);
                    }
                    return Err(ErrorKind::MalformedLength);
                }
            }
            alternative_gen = Some(alt);
        }
    }
    proof {
        assert(all.take(all.len() as int) =~= all);
    }
    Ok(FieldAttributes { and_values, alternative_gen })
}

/// The value that a literal stands for in a field of type `t`, if it can have that
/// type: an integer in range for a byte, a boolean for a boolean, a string for a
/// string, for an optional type what the literal is for the inner type, as
/// present, and for a type with candidates of its own choosing what the literal is
/// for the type that it is written like.
pub open spec fn converted(lit: Literal, t: ElementType) -> Option<ValueView>
    decreases t,
{
    match t {
        ElementType::U8 => match lit {
            Literal::Int(n) => if 0 <= n <= u8::MAX {
                Some(ValueView::U8(n as u8))
            } else {
                None
            },
            _ => None,
        },
        ElementType::I8 => match lit {
            Literal::Int(n) => if i8::MIN <= n <= i8::MAX {
                Some(ValueView::I8(n as i8))
            } else {
                None
            },
            _ => None,
        },
        ElementType::Bool => match lit {
            Literal::Bool(b) => Some(ValueView::Bool(b)),
            _ => None,
        },
        ElementType::Text => match lit {
            Literal::Text(s) => Some(ValueView::Text(s@)),
            _ => None,
        },
        ElementType::Optional(inner) => match converted(lit, *inner) {
            Some(v) => Some(ValueView::Present(Box::new(v))),
            None => None,
        },
        ElementType::Custom(like, _) => converted(lit, *like),
        ElementType::List(_) => None,
        ElementType::Named(_) => None,
    }
}

/// Every literal of `lits` can have the type `t`.
pub open spec fn all_convertible(lits: Seq<Literal>, t: ElementType) -> bool {
    forall|i: int| 0 <= i < lits.len() ==> (#[trigger] converted(lits[i], t)) is Some
}

/// The values that the literals of `lits` stand for in a field of type `t`.
pub open spec fn converted_all(lits: Seq<Literal>, t: ElementType) -> Seq<ValueView> {
    Seq::new(lits.len(), |i: int| converted(lits[i], t).unwrap())
}

/// The value of `lit` in a field of type `t`, or `None` where it cannot have that
/// type.
pub fn convert(lit: &Literal, t: &ElementType) -> (out: Option<Value>)
    ensures
        match out {
            Some(v) => converted(*lit, *t) == Some(v@),
            None => converted(*lit, *t) is None,
        },
    decreases t,
{
    match t {
        ElementType::U8 => match lit {
            Literal::Int(n) => if 0 <= *n && *n <= 255 {
                Some(Value::U8(*n as u8))
            } else {
                None
            },
            _ => None,
        },
        ElementType::I8 => match lit {
            Literal::Int(n) => if -128 <= *n && *n <= 127 {
                Some(Value::I8(*n as i8))
            } else {
                None
            },
            _ => None,
        },
        ElementType::Bool => match lit {
            Literal::Bool(b) => Some(Value::Bool(*b)),
            _ => None,
        },
        ElementType::Text => match lit {
            Literal::Text(s) => Some(Value::Text(s.clone())),
            _ => None,
        },
        ElementType::Optional(inner) => match convert(lit, inner) {
            Some(v) => Some(Value::Present(Box::new(v))),
            None => None,
        },
        ElementType::Custom(like, _) => convert(lit, like),
        ElementType::List(_) => None,
        ElementType::Named(_) => None,
    }
}

/// The values of `lits` in a field of type `t`, or `None` where one of them cannot
/// have that type.
pub fn convert_all(lits: &Vec<Literal>, t: &ElementType) -> (out: Option<Vec<Value>>)
    ensures
        match out {
            Some(values) => all_convertible(lits@, *t) && contents(values@) == converted_all(
                lits@,
                *t,
            ),
            None => !all_convertible(lits@, *t),
        },
{
    let mut values: Vec<Value> = Vec::new();
    let mut i: usize = 0;
    while i < lits.len()
        invariant
            i <= lits@.len(),
            values@.len() == i,
            forall|k: int| 0 <= k < i ==> converted(lits@[k], *t) == Some(content(values@[k])),
        decreases lits@.len() - i,
    {
        match convert(&lits[i], t) {
            Some(v) => {
                values.push(v);
            },
            None => {
                assert(converted(lits@[i as int], *t) is None);
                return None;
            },
        }
        i += 1;
    }
    proof {
        assert(contents(values@) =~= converted_all(lits@, *t));
    }
    Some(values)
}

/// The default value of the type `t`: zero, false, the empty string, absent, the
/// empty collection; for a type with candidates of its own choosing, that of the
/// type that it is written like. A registered type has none.
pub open spec fn default_of(t: ElementType) -> Option<ValueView>
    decreases t,
{
    match t {
        ElementType::U8 => Some(ValueView::U8(0)),
        ElementType::I8 => Some(ValueView::I8(0)),
        ElementType::Bool => Some(ValueView::Bool(false)),
        ElementType::Text => Some(ValueView::Text(Seq::empty())),
        ElementType::Optional(_) => Some(ValueView::Absent),
        ElementType::List(_) => Some(ValueView::List(Seq::empty())),
        ElementType::Custom(like, _) => default_of(*like),
        ElementType::Named(_) => None,
    }
}

/// The default value of the type `t`, where it has one.
pub fn default_value(t: &ElementType) -> (out: Option<Value>)
    ensures
        match out {
            Some(v) => default_of(*t) == Some(v@),
            None => default_of(*t) is None,
        },
    decreases t,
{
    match t {
        ElementType::U8 => Some(Value::U8(0)),
        ElementType::I8 => Some(Value::I8(0)),
        ElementType::Bool => Some(Value::Bool(false)),
        ElementType::Text => Some(Value::Text(String::new())),
        ElementType::Optional(_) => Some(Value::Absent),
        ElementType::List(_) => {
            let items: Vec<Value> = Vec::new();
            proof {
                crate::value::lemma_items_content(items);
                assert(contents(items@) =~= Seq::<ValueView>::empty());
            }
            Some(Value::List(items))
        },
        ElementType::Custom(like, _) => default_value(like),
        ElementType::Named(_) => None,
    }
}

/// Every registered type that `t` names has a number below `n`.
pub open spec fn refs_ok(t: ElementType, n: nat) -> bool
    decreases t,
{
    match t {
        ElementType::Optional(inner) => refs_ok(*inner, n),
        ElementType::List(inner) => refs_ok(*inner, n),
        ElementType::Custom(like, _) => refs_ok(*like, n),
        ElementType::Named(id) => id < n,
        _ => true,
    }
}

/// The type `t` has candidates of its own: the bytes, a registered type, a type
/// with candidates of its own choosing, and an optional of a type that has.
pub open spec fn has_provider(t: ElementType) -> bool
    decreases t,
{
    match t {
        ElementType::U8 => true,
        ElementType::I8 => true,
        ElementType::Optional(inner) => has_provider(*inner),
        ElementType::Named(_) => true,
        ElementType::Custom(_, _) => true,
        _ => false,
    }
}

/// How many candidates of its own the type `t` has, where `counts` holds the number
/// of instances of every registered type.
pub open spec fn provider_count(counts: Seq<usize>, t: ElementType) -> nat
    decreases t,
{
    match t {
        ElementType::U8 => u8_candidates().len(),
        ElementType::I8 => i8_candidates().len(),
        ElementType::Optional(inner) => 1 + provider_count(counts, *inner),
        ElementType::Named(id) => if id < counts.len() {
            counts[id as int] as nat
        } else {
            0
        },
        ElementType::Custom(_, values) => values@.len(),
        _ => 0,
    }
}

/// One of the lengths asks for items.
pub open spec fn needs_items(lens: Seq<i64>) -> bool {
    exists|i: int| 0 <= i < lens.len() && #[trigger] lens[i] > 0
}

/// How many candidates the field has before the added values, or why it has none.
pub open spec fn base_count(counts: Seq<usize>, f: FieldSpec) -> Result<nat, ErrorKind> {
    match f.attributes.alternative_gen {
        None => if has_provider(f.element) {
            Ok(provider_count(counts, f.element))
        } else {
            Err(ErrorKind::NoProvider)
        },
        Some(AlternativeGen::WithValues(values)) => if all_convertible(values@, f.element) {
            Ok(values@.len())
        } else {
            Err(ErrorKind::InconvertibleLiteral)
        },
        Some(AlternativeGen::Default) => if default_of(f.element) is Some {
            Ok(1)
        } else {
            Err(ErrorKind::NoDefault)
        },
        Some(AlternativeGen::GenerateCollectionWithLength(lens)) => match f.element {
            ElementType::List(inner) => if !lengths_ok(lens@) {
                Err(ErrorKind::MalformedLength)
            } else if needs_items(lens@) && !has_provider(*inner) {
                Err(ErrorKind::NoProvider)
            } else {
                Ok(lens@.len())
            },
            _ => Err(ErrorKind::NotACollection),
        },
    }
}

/// How many values are added after the field's other candidates.
pub open spec fn added_count(f: FieldSpec) -> nat {
    match f.attributes.and_values {
        Some(values) => values@.len(),
        None => 0,
    }
}

/// How many candidates the field has, or why the field is refused. In this order:
/// a type that is not registered; a fault of the alternative source; an added value
/// that cannot have the field's type; more candidates than a `usize` can count.
pub open spec fn field_count(counts: Seq<usize>, f: FieldSpec) -> Result<nat, ErrorKind> {
    if !refs_ok(f.element, counts.len()) {
        Err(ErrorKind::UnknownType)
    } else {
        match base_count(counts, f) {
            Err(e) => Err(e),
            Ok(n) => if f.attributes.and_values matches Some(values) && !all_convertible(
                values@,
                f.element,
            ) {
                Err(ErrorKind::InconvertibleLiteral)
            } else if n + added_count(f) > usize::MAX {
                Err(ErrorKind::TooLarge)
            } else {
                Ok(n + added_count(f))
            },
        }
    }
}

/// The number of candidates of every field, in order, and zero for a field that is
/// refused.
pub open spec fn field_lens(counts: Seq<usize>, fields: Seq<FieldSpec>) -> Seq<nat> {
    Seq::new(
        fields.len(),
        |i: int|
            match field_count(counts, fields[i]) {
                Ok(n) => n,
                Err(_) => 0,
            },
    )
}

/// How many instances a record of these fields has: the product of the numbers of
/// candidates of its fields.
pub open spec fn record_count(counts: Seq<usize>, fields: Seq<FieldSpec>) -> nat {
    volume(field_lens(counts, fields))
}

/// No field is refused, and a `usize` can count the record's instances.
pub open spec fn record_ok(counts: Seq<usize>, fields: Seq<FieldSpec>) -> bool {
    &&& forall|i: int| 0 <= i < fields.len() ==> (#[trigger] field_count(counts, fields[i])) is Ok
    &&& record_count(counts, fields) <= usize::MAX
}

/// The sum of the numbers of `ns`.
pub open spec fn total(ns: Seq<nat>) -> nat
    decreases ns.len(),
{
    if ns.len() == 0 {
        0
    } else {
        total(ns.drop_last()) + ns.last()
    }
}

/// One more number adds to the sum of those before it.
pub proof fn lemma_total_step(ns: Seq<nat>, k: int)
    requires
        0 <= k < ns.len(),
    ensures
        total(ns.take(k + 1)) == total(ns.take(k)) + ns[k],
{
    let next = ns.take(k + 1);
    assert(next.drop_last() =~= ns.take(k));
    assert(next.last() == ns[k]);
}

/// The number of instances of every variant, in order.
pub open spec fn variant_counts(counts: Seq<usize>, variants: Seq<VariantSchema>) -> Seq<nat> {
    Seq::new(variants.len(), |k: int| record_count(counts, variants[k].fields@))
}

impl TypeSchema {
    /// The shape can be registered after types with these numbers of instances: no
    /// field is refused, a tagged union has a variant, and a `usize` can count the
    /// instances of the type and of each variant.
    pub open spec fn valid(self, counts: Seq<usize>) -> bool {
        match self {
            TypeSchema::Record(fields) => record_ok(counts, fields@),
            TypeSchema::Sum(variants) => {
                &&& variants@.len() > 0
                &&& forall|k: int|
                    0 <= k < variants@.len() ==> record_ok(
                        counts,
                        (#[trigger] variants@[k]).fields@,
                    )
                &&& total(variant_counts(counts, variants@)) <= usize::MAX
            },
        }
    }

    /// How many instances the type has: for a record the product of the numbers of
    /// candidates of its fields, for a tagged union the sum over its variants.
    pub open spec fn count(self, counts: Seq<usize>) -> nat {
        match self {
            TypeSchema::Record(fields) => record_count(counts, fields@),
            TypeSchema::Sum(variants) => total(variant_counts(counts, variants@)),
        }
    }
}

} // verus!
