//! Registering the enums and structs a program declares.
//!
//! An enum's variants are numbered by their own number when they give one
//! (`Continue = 100`), else one more than the variant before them
//! (`SwitchingProtocols` is 101). Two variants with one number or one
//! name, and two fields with one name, are reported. A declaration whose
//! name is taken already is reported as conflicting and not added.
use vstd::prelude::*;

use super::dictionary::{
    law_register_keeps_names_unique, registry_contains, registry_unique, Constant, Dictionary, Enum,
    Error, ErrorField, Function, GenericDecl, IdentifierKinds, Implementation, NestedIdent,
    Overload, ShallowType, Struct, Trait, TypeDef, Variable,
};
use crate::expression_parser::ValueType;
use super::AnalyzationError::ErrType;
use crate::text::{chars_of, same_chars};

verus! {

/// A clash between two variants of an enum, or two fields of a struct.
pub enum Clash {
    /// two variants have this number
    Number(int),
    /// two variants, or two fields, have this name
    Name(Seq<char>),
}

/// The variants of an enum as written: names, and the numbers given.
pub open spec fn variants_view(v: Seq<(String, Option<usize>)>) -> Seq<(Seq<char>, Option<usize>)> {
    v.map_values(|x: (String, Option<usize>)| (x.0@, x.1))
}

/// The number of variant `k`: the one it gives, or one more than the
/// variant before it (-1 for a first variant that gives none).
pub open spec fn variant_number(vs: Seq<(Seq<char>, Option<usize>)>, k: int) -> int
    decreases k,
{
    if k < 0 {
        -1
    } else {
        match vs[k].1 {
            Some(d) => d as int,
            None => if k == 0 {
                -1
            } else {
                variant_number(vs, k - 1) + 1
            },
        }
    }
}

/// Every variant gets a number that a `usize` holds.
pub open spec fn numbers_fit(vs: Seq<(Seq<char>, Option<usize>)>) -> bool {
    forall|k: int| 0 <= k < vs.len() ==> 0 <= #[trigger] variant_number(vs, k) <= usize::MAX
}

/// The keys of an enum: each variant's name and number.
pub open spec fn enum_keys(vs: Seq<(Seq<char>, Option<usize>)>) -> Seq<(Seq<char>, int)> {
    Seq::new(vs.len(), |k: int| (vs[k].0, variant_number(vs, k)))
}

/// The keys an enum holds, as names and numbers.
pub open spec fn keys_view(v: Seq<(String, usize)>) -> Seq<(Seq<char>, int)> {
    v.map_values(|x: (String, usize)| (x.0@, x.1 as int))
}

/// The clashes of a new variant with the ones before it, in their order:
/// for each, first a clash of numbers, then one of names.
pub open spec fn clashes_with(prev: Seq<(Seq<char>, int)>, name: Seq<char>, n: int) -> Seq<Clash>
    decreases prev.len(),
{
    if prev.len() == 0 {
        seq![]
    } else {
        clashes_with(prev.drop_last(), name, n) + (if prev.last().1 == n {
            seq![Clash::Number(n)]
        } else {
            seq![]
        }) + (if prev.last().0 == name {
            seq![Clash::Name(name)]
        } else {
            seq![]
        })
    }
}

/// The clashes among the first `i` variants, in the order found.
pub open spec fn enum_clashes(vs: Seq<(Seq<char>, Option<usize>)>, i: int) -> Seq<Clash>
    decreases i,
{
    if i <= 0 {
        seq![]
    } else {
        enum_clashes(vs, i - 1) + clashes_with(
            enum_keys(vs).take(i - 1),
            vs[i - 1].0,
            variant_number(vs, i - 1),
        )
    }
}

/// `e` is the error that reports the variant clash `c`.
pub open spec fn reports_variant_clash(e: ErrType, c: Clash) -> bool {
    match c {
        Clash::Number(n) => e matches ErrType::EnumVariantAssignedNumber(m, _) && m == n,
        Clash::Name(s) => e matches ErrType::EnumVariantAssignedIdent(t, _) && t@ == s,
    }
}

/// `e` is the error that reports the argument clash `c`.
pub open spec fn reports_arg_clash(e: ErrType, c: Clash) -> bool {
    match c {
        Clash::Name(s) => e matches ErrType::ConflictingArgsName(t) && t@ == s,
        _ => false,
    }
}

/// What clashes are between: variants of an enum, fields of a struct, or
/// arguments of a function.
pub enum ClashKind {
    Variants,
    Fields,
    Args,
}

/// `e` is the error that reports the clash `c` between things of kind
/// `which`.
pub open spec fn reports_clash(e: ErrType, c: Clash, which: ClashKind) -> bool {
    match which {
        ClashKind::Variants => reports_variant_clash(e, c),
        ClashKind::Fields => reports_field_clash(e, c),
        ClashKind::Args => reports_arg_clash(e, c),
    }
}

/// `e` is the error that reports the field clash `c`.
pub open spec fn reports_field_clash(e: ErrType, c: Clash) -> bool {
    match c {
        Clash::Name(s) => e matches ErrType::StructVariantAssignedIdent(t, _) && t@ == s,
        _ => false,
    }
}

/// `after` is `before` followed by one error per clash of `found`, each
/// reported as a clash between things of kind `which`.
pub open spec fn clashes_reported(
    before: Seq<ErrType>,
    after: Seq<ErrType>,
    found: Seq<Clash>,
    which: ClashKind,
) -> bool {
    &&& after.len() == before.len() + found.len()
    &&& after.take(before.len() as int) == before
    &&& forall|k: int|
        0 <= k < found.len() ==> reports_clash(#[trigger] after[before.len() + k], found[k], which)
}

/// Everything but the enums, the structs and the registry is as before.
pub open spec fn others_unchanged(a: Dictionary, b: Dictionary) -> bool {
    &&& a.functions == b.functions
    &&& a.types == b.types
    &&& a.variables == b.variables
    &&& a.constants == b.constants
    &&& a.imports == b.imports
    &&& a.implementations == b.implementations
    &&& a.traits == b.traits
    &&& a.errors == b.errors
}

fn same_string(a: &String, b: &String) -> (r: bool)
    ensures
        r == (a@ == b@),
{
    same_chars(&chars_of(a.as_str()), &chars_of(b.as_str()))
}

proof fn lemma_clashes_step(prev: Seq<(Seq<char>, int)>, j: int, name: Seq<char>, n: int)
    requires
        0 <= j < prev.len(),
    ensures
        clashes_with(prev.take(j + 1), name, n) == clashes_with(prev.take(j), name, n) + (if prev[j].1
            == n {
            seq![Clash::Number(n)]
        } else {
            seq![]
        }) + (if prev[j].0 == name {
            seq![Clash::Name(name)]
        } else {
            seq![]
        }),
{
    assert(prev.take(j + 1).drop_last() =~= prev.take(j));
}

pub(crate) proof fn lemma_push_report(
    before: Seq<ErrType>,
    mid: Seq<ErrType>,
    found: Seq<Clash>,
    e: ErrType,
    c: Clash,
    which: ClashKind,
)
    requires
        clashes_reported(before, mid, found, which),
        reports_clash(e, c, which),
    ensures
        clashes_reported(before, mid.push(e), found.push(c), which),
{
    let after = mid.push(e);
    assert(after.take(before.len() as int) =~= mid.take(before.len() as int));
    assert forall|k: int| 0 <= k < found.push(c).len() implies reports_clash(
        #[trigger] after[before.len() + k],
        found.push(c)[k],
        which,
    ) by {
        if k < found.len() {
            assert(after[before.len() + k] == mid[before.len() + k]);
        }
    }
}

/// Registers an enum: numbers its variants, reports variants that share a
/// number or a name, then adds it, or reports that its name is taken.
pub fn load_enum(
    identifier: String,
    values: &Vec<(String, Option<usize>)>,
    dictionary: &mut Dictionary,
    errors: &mut Vec<ErrType>,
)
    requires
        numbers_fit(variants_view(values@)),
    ensures
        ({
            let vs = variants_view(values@);
            let added = !registry_contains(old(dictionary).identifiers@, identifier@);
            let clashes = enum_clashes(vs, vs.len() as int);
            &&& others_unchanged(*final(dictionary), *old(dictionary))
            &&& final(dictionary).structs == old(dictionary).structs
            &&& registry_unique(old(dictionary).identifiers@) ==> registry_unique(
                final(dictionary).identifiers@,
            )
            &&& added ==> {
                &&& final(dictionary).identifiers@ == old(dictionary).identifiers@.push(
                    (identifier, IdentifierKinds::Enum),
                )
                &&& final(dictionary).enums@.len() == old(dictionary).enums@.len() + 1
                &&& final(dictionary).enums@.drop_last() == old(dictionary).enums@
                &&& final(dictionary).enums@.last().identifier@ == identifier@
                &&& keys_view(final(dictionary).enums@.last().keys@) == enum_keys(vs)
                &&& final(dictionary).enums@.last().src_loc == 0
                &&& final(dictionary).enums@.last().methods@.len() == 0
                &&& final(dictionary).enums@.last().overloads@.len() == 0
                &&& clashes_reported(old(errors)@, final(errors)@, clashes, ClashKind::Variants)
            }
            &&& !added ==> {
                &&& final(dictionary).identifiers@ == old(dictionary).identifiers@
                &&& final(dictionary).enums == old(dictionary).enums
                &&& clashes_reported(
                    old(errors)@,
                    final(errors)@.drop_last(),
                    clashes, ClashKind::Variants)
                &&& final(errors)@.len() == old(errors)@.len() + clashes.len() + 1
                &&& (final(errors)@.last() matches ErrType::ConflictingNames(n) && n@
                    == identifier@)
            }
        }),
{
    let ghost vs = variants_view(values@);
    let ghost e0 = errors@;
    let mut keys: Vec<(String, usize)> = Vec::new();
    let mut i: usize = 0;
    proof {
        assert(e0.take(e0.len() as int) =~= e0);
    }
    while i < values.len()
        invariant
            i <= values@.len(),
            vs == variants_view(values@),
            numbers_fit(vs),
            e0 == old(errors)@,
            keys_view(keys@) == enum_keys(vs).take(i as int),
            clashes_reported(e0, errors@, enum_clashes(vs, i as int), ClashKind::Variants),
        decreases values@.len() - i,
    {
        assert(0 <= variant_number(vs, i as int) <= usize::MAX);
        assert(vs[i as int].1 == values@[i as int].1);
        assert(keys_view(keys@).len() == keys@.len());
        let n: usize = match values[i].1 {
            Some(d) => d,
            None => {
                assert(i > 0);
                assert(keys_view(keys@)[i - 1] == enum_keys(vs)[i - 1]);
                assert(keys@[i - 1].1 == variant_number(vs, i - 1));
                keys[keys.len() - 1].1 + 1
            },
        };
        assert(n == variant_number(vs, i as int));
        let ident = values[i].0.clone();
        let ghost base = errors@;
        let ghost prev = enum_keys(vs).take(i as int);
        let mut j: usize = 0;
        while j < keys.len()
            invariant
                j <= keys@.len(),
                keys_view(keys@) == prev,
                prev.len() == i,
                clashes_reported(e0, base, enum_clashes(vs, i as int), ClashKind::Variants),
                clashes_reported(
                    e0,
                    errors@,
                    enum_clashes(vs, i as int) + clashes_with(prev.take(j as int), ident@, n as int), ClashKind::Variants),
            decreases keys@.len() - j,
        {
            proof {
                lemma_clashes_step(prev, j as int, ident@, n as int);
                assert(keys_view(keys@)[j as int] == prev[j as int]);
            }
            let ghost found0 = enum_clashes(vs, i as int) + clashes_with(prev.take(j as int), ident@, n as int);
            let ghost mut found1 = found0;
            if keys[j].1 == n {
                let e = ErrType::EnumVariantAssignedNumber(n, (0, 0));
                proof {
                    lemma_push_report(e0, errors@, found0, e, Clash::Number(n as int), ClashKind::Variants);
                    found1 = found0.push(Clash::Number(n as int));
                }
                errors.push(e);
            }
            if same_string(&keys[j].0, &ident) {
                let e = ErrType::EnumVariantAssignedIdent(ident.clone(), (0, 0));
                proof {
                    lemma_push_report(e0, errors@, found1, e, Clash::Name(ident@), ClashKind::Variants);
                    found1 = found1.push(Clash::Name(ident@));
                }
                errors.push(e);
            }
            proof {
                assert(found1 =~= enum_clashes(vs, i as int) + clashes_with(
                    prev.take(j + 1),
                    ident@,
                    n as int,
                ));
            }
            j += 1;
        }
        proof {
            assert(prev.take(i as int) =~= prev);
            assert(vs[i as int].0 == ident@);
        }
        keys.push((ident, n));
        proof {
            assert(keys_view(keys@) =~= enum_keys(vs).take(i + 1));
        }
        i += 1;
    }
    proof {
        assert(enum_keys(vs).take(vs.len() as int) =~= enum_keys(vs));
    }
    let ghost clashes_end = errors@;
    let result = Enum {
        identifier: identifier.clone(),
        keys,
        src_loc: 0,
        methods: Vec::new(),
        overloads: Vec::new(),
    };
    let ghost ids0 = dictionary.identifiers@;
    let ghost name0 = identifier;
    if dictionary.register_id(identifier, IdentifierKinds::Enum) {
        proof {
            if registry_unique(ids0) {
                law_register_keeps_names_unique(ids0, name0, IdentifierKinds::Enum);
            }
        }
        dictionary.enums.push(result);
        assert(dictionary.enums@.drop_last() =~= old(dictionary).enums@);
    } else {
        let e = ErrType::ConflictingNames(result.identifier);
        errors.push(e);
        assert(errors@.drop_last() =~= clashes_end);
    }
}

/// The clashes among the first `i` fields of a struct: each field whose
/// name an earlier field has, once per such earlier field.
pub open spec fn field_clashes(names: Seq<Seq<char>>, i: int) -> Seq<Clash>
    decreases i,
{
    if i <= 0 {
        seq![]
    } else {
        field_clashes(names, i - 1) + name_clashes(names.take(i - 1), names[i - 1])
    }
}

/// One name clash per earlier name equal to `name`.
pub open spec fn name_clashes(prev: Seq<Seq<char>>, name: Seq<char>) -> Seq<Clash>
    decreases prev.len(),
{
    if prev.len() == 0 {
        seq![]
    } else {
        name_clashes(prev.drop_last(), name) + (if prev.last() == name {
            seq![Clash::Name(name)]
        } else {
            seq![]
        })
    }
}

/// A name is reported once for each earlier name equal to it, and each
/// report names it: no equal earlier name, no report.
pub proof fn law_one_report_per_earlier_equal_name(prev: Seq<Seq<char>>, name: Seq<char>)
    ensures
        name_clashes(prev, name).len() == prev.filter(|x: Seq<char>| x == name).len(),
        forall|k: int|
            0 <= k < name_clashes(prev, name).len() ==> #[trigger] name_clashes(prev, name)[k]
                == Clash::Name(name),
    decreases prev.len(),
{
    if prev.len() > 0 {
        let p = |x: Seq<char>| x == name;
        law_one_report_per_earlier_equal_name(prev.drop_last(), name);
        prev.drop_last().lemma_filter_push(prev.last(), p);
        assert(prev.drop_last().push(prev.last()) =~= prev);
    } else {
        assert(prev.filter(|x: Seq<char>| x == name) =~= Seq::<Seq<char>>::empty());
    }
}

/// The names of the fields of a struct.
pub open spec fn field_names(v: Seq<(String, ShallowType)>) -> Seq<Seq<char>> {
    v.map_values(|x: (String, ShallowType)| x.0@)
}

/// Registers a struct: reports fields that share a name, then adds it, or
/// reports that its name is taken.
pub fn load_struct(
    identifier: String,
    fields: Vec<(String, ShallowType)>,
    generics: Vec<GenericDecl>,
    public: bool,
    dictionary: &mut Dictionary,
    errors: &mut Vec<ErrType>,
)
    ensures
        ({
            let names = field_names(fields@);
            let added = !registry_contains(old(dictionary).identifiers@, identifier@);
            let clashes = field_clashes(names, names.len() as int);
            &&& others_unchanged(*final(dictionary), *old(dictionary))
            &&& final(dictionary).enums == old(dictionary).enums
            &&& registry_unique(old(dictionary).identifiers@) ==> registry_unique(
                final(dictionary).identifiers@,
            )
            &&& added ==> {
                &&& final(dictionary).identifiers@ == old(dictionary).identifiers@.push(
                    (identifier, IdentifierKinds::Struct),
                )
                &&& final(dictionary).structs@.len() == old(dictionary).structs@.len() + 1
                &&& final(dictionary).structs@.drop_last() == old(dictionary).structs@
                &&& final(dictionary).structs@.last().identifier@ == identifier@
                &&& final(dictionary).structs@.last().fields@ == fields@
                &&& final(dictionary).structs@.last().generics@ == generics@
                &&& final(dictionary).structs@.last().public == public
                &&& final(dictionary).structs@.last().src_loc == 0
                &&& final(dictionary).structs@.last().traits@.len() == 0
                &&& clashes_reported(old(errors)@, final(errors)@, clashes, ClashKind::Fields)
            }
            &&& !added ==> {
                &&& final(dictionary).identifiers@ == old(dictionary).identifiers@
                &&& final(dictionary).structs == old(dictionary).structs
                &&& clashes_reported(old(errors)@, final(errors)@.drop_last(), clashes, ClashKind::Fields)
                &&& final(errors)@.len() == old(errors)@.len() + clashes.len() + 1
                &&& (final(errors)@.last() matches ErrType::ConflictingNames(n) && n@
                    == identifier@)
            }
        }),
{
    let ghost names = field_names(fields@);
    let ghost e0 = errors@;
    proof {
        assert(e0.take(e0.len() as int) =~= e0);
    }
    let mut i: usize = 0;
    while i < fields.len()
        invariant
            i <= fields@.len(),
            names == field_names(fields@),
            e0 == old(errors)@,
            clashes_reported(e0, errors@, field_clashes(names, i as int), ClashKind::Fields),
        decreases fields@.len() - i,
    {
        let ghost prev = names.take(i as int);
        let mut j: usize = 0;
        while j < i
            invariant
                j <= i < fields@.len(),
                names == field_names(fields@),
                prev == names.take(i as int),
                clashes_reported(
                    e0,
                    errors@,
                    field_clashes(names, i as int) + name_clashes(prev.take(j as int), names[i as int]), ClashKind::Fields),
            decreases i - j,
        {
            let ghost found0 = field_clashes(names, i as int) + name_clashes(prev.take(j as int), names[i as int]);
            proof {
                assert(prev.take(j + 1).drop_last() =~= prev.take(j as int));
            }
            if same_string(&fields[j].0, &fields[i].0) {
                let e = ErrType::StructVariantAssignedIdent(fields[i].0.clone(), (0, 0));
                proof {
                    lemma_push_report(e0, errors@, found0, e, Clash::Name(names[i as int]), ClashKind::Fields);
                    assert(found0.push(Clash::Name(names[i as int])) =~= field_clashes(names, i as int)
                        + name_clashes(prev.take(j + 1), names[i as int]));
                }
                errors.push(e);
            } else {
                assert(found0 =~= field_clashes(names, i as int) + name_clashes(prev.take(j + 1), names[i as int]));
            }
            j += 1;
        }
        proof {
            assert(prev.take(i as int) =~= prev);
        }
        i += 1;
    }
    let ghost clashes_end = errors@;
    let result = Struct {
        identifier: identifier.clone(),
        fields,
        src_loc: 0,
        generics,
        traits: Vec::new(),
        public,
    };
    let ghost ids0 = dictionary.identifiers@;
    let ghost name0 = identifier;
    if dictionary.register_id(identifier, IdentifierKinds::Struct) {
        proof {
            if registry_unique(ids0) {
                law_register_keeps_names_unique(ids0, name0, IdentifierKinds::Struct);
            }
        }
        dictionary.structs.push(result);
        assert(dictionary.structs@.drop_last() =~= old(dictionary).structs@);
    } else {
        let e = ErrType::ConflictingNames(result.identifier);
        errors.push(e);
        assert(errors@.drop_last() =~= clashes_end);
    }
}

/// A declaration at the top level of a program, as read from its syntax
/// tree: the values that registering it uses.
pub enum Declaration {
    Enum { identifier: String, values: Vec<(String, Option<usize>)> },
    Type { identifier: String, kind: ShallowType, generics: Vec<GenericDecl>, public: bool },
    Struct {
        identifier: String,
        fields: Vec<(String, ShallowType)>,
        generics: Vec<GenericDecl>,
        public: bool,
    },
    Function(Function),
    Let { identifier: String, kind: Option<ShallowType> },
    Const { identifier: String, kind: ShallowType, public: bool, value: ValueType },
    Impl {
        target: NestedIdent,
        traits: Vec<NestedIdent>,
        functions: Vec<Function>,
        overloads: Vec<Overload>,
    },
    Trait {
        identifier: String,
        public: bool,
        traits: Vec<NestedIdent>,
        functions: Vec<Function>,
        overloads: Vec<Overload>,
    },
    Error { identifier: String, args: Vec<(String, ShallowType)>, fields: Vec<(String, ErrorField)> },
    Import,
    Expression,
}

/// Registering `name` as `kind`: when the name is free it is added at the
/// end of the registry and no error is reported; when it is taken the
/// registry stays as it is and `ConflictingNames` is reported.
pub open spec fn registers(
    old_ids: Seq<(String, IdentifierKinds)>,
    new_ids: Seq<(String, IdentifierKinds)>,
    old_errors: Seq<ErrType>,
    new_errors: Seq<ErrType>,
    name: String,
    kind: IdentifierKinds,
) -> bool {
    if !registry_contains(old_ids, name@) {
        new_ids == old_ids.push((name, kind)) && new_errors == old_errors
    } else {
        &&& new_ids == old_ids
        &&& new_errors.len() == old_errors.len() + 1
        &&& new_errors.drop_last() == old_errors
        &&& (new_errors.last() matches ErrType::ConflictingNames(n) && n@ == name@)
    }
}

/// `new` is `old` with one more entry at its end when `added`, else `old`.
pub open spec fn grows_by_one<T>(old: Seq<T>, new: Seq<T>, added: bool) -> bool {
    if added {
        new.len() == old.len() + 1 && new.drop_last() == old
    } else {
        new == old
    }
}

/// Registers `name` as `kind`, or reports that it is taken.
fn register_into(
    ids_owner: &mut Dictionary,
    name: String,
    kind: IdentifierKinds,
    errors: &mut Vec<ErrType>,
) -> (added: bool)
    ensures
        added == !registry_contains(old(ids_owner).identifiers@, name@),
        registers(
            old(ids_owner).identifiers@,
            final(ids_owner).identifiers@,
            old(errors)@,
            final(errors)@,
            name,
            kind,
        ),
        *final(ids_owner) == (Dictionary { identifiers: final(ids_owner).identifiers, ..*old(ids_owner) }),
{
    let shown = name.clone();
    let added = ids_owner.register_id(name, kind);
    if !added {
        errors.push(ErrType::ConflictingNames(shown));
        assert(errors@.drop_last() =~= old(errors)@);
    }
    added
}

/// Registering keeps the registry free of duplicates, keeps its old entries
/// in front, and adds at most one.
pub proof fn law_registering_keeps_the_registry(
    old_ids: Seq<(String, IdentifierKinds)>,
    new_ids: Seq<(String, IdentifierKinds)>,
    old_errors: Seq<ErrType>,
    new_errors: Seq<ErrType>,
    name: String,
    kind: IdentifierKinds,
)
    requires
        registers(old_ids, new_ids, old_errors, new_errors, name, kind),
    ensures
        registry_unique(old_ids) ==> registry_unique(new_ids),
        new_ids.take(old_ids.len() as int) == old_ids,
        new_ids.len() <= old_ids.len() + 1,
{
    if !registry_contains(old_ids, name@) {
        if registry_unique(old_ids) {
            law_register_keeps_names_unique(old_ids, name, kind);
        }
        assert(new_ids.take(old_ids.len() as int) =~= old_ids);
    } else {
        assert(new_ids.take(old_ids.len() as int) =~= old_ids);
    }
}

/// The name a declaration registers, and as what; `None` for the ones that
/// register nothing.
pub open spec fn declared_name(d: Declaration) -> Option<(String, IdentifierKinds)> {
    match d {
        Declaration::Enum { identifier, .. } => Some((identifier, IdentifierKinds::Enum)),
        Declaration::Type { identifier, .. } => Some((identifier, IdentifierKinds::Type)),
        Declaration::Struct { identifier, .. } => Some((identifier, IdentifierKinds::Struct)),
        Declaration::Function(f) => Some((f.identifier.unwrap(), IdentifierKinds::Function)),
        Declaration::Let { identifier, .. } => Some((identifier, IdentifierKinds::Variable)),
        Declaration::Const { identifier, .. } => Some((identifier, IdentifierKinds::Variable)),
        Declaration::Trait { identifier, .. } => Some((identifier, IdentifierKinds::Trait)),
        Declaration::Error { identifier, .. } => Some((identifier, IdentifierKinds::Error)),
        _ => None,
    }
}

/// Adds one top-level declaration to the dictionary. A named declaration
/// registers its name (an enum numbers its variants and a struct checks its
/// fields first, see `load_enum` and `load_struct`) and is added to its
/// list, or, when its name is taken, is reported as conflicting and left
/// out. An implementation is added without a name; an import or an
/// expression adds nothing.
pub fn load_node(decl: Declaration, dictionary: &mut Dictionary, errors: &mut Vec<ErrType>)
    requires
        decl matches Declaration::Enum { values, .. } ==> numbers_fit(variants_view(values@)),
        decl matches Declaration::Function(f) ==> f.identifier is Some,
    ensures
        registry_unique(old(dictionary).identifiers@) ==> registry_unique(
            final(dictionary).identifiers@,
        ),
        final(dictionary).identifiers@.take(old(dictionary).identifiers@.len() as int) == old(
            dictionary,
        ).identifiers@,
        final(dictionary).identifiers@.len() <= old(dictionary).identifiers@.len() + 1,
        match declared_name(decl) {
            Some((name, kind)) => match decl {
                Declaration::Enum { .. } | Declaration::Struct { .. } => final(dictionary).identifiers@
                    == if registry_contains(old(dictionary).identifiers@, name@) {
                    old(dictionary).identifiers@
                } else {
                    old(dictionary).identifiers@.push((name, kind))
                },
                _ => registers(
                    old(dictionary).identifiers@,
                    final(dictionary).identifiers@,
                    old(errors)@,
                    final(errors)@,
                    name,
                    kind,
                ),
            },
            None => final(dictionary).identifiers@ == old(dictionary).identifiers@,
        },
        ({
            let added = match declared_name(decl) {
                Some((name, kind)) => !registry_contains(old(dictionary).identifiers@, name@),
                None => false,
            };
            match decl {
                Declaration::Type { identifier, kind, generics, public } => {
                    &&& grows_by_one(old(dictionary).types@, final(dictionary).types@, added)
                    &&& added ==> {
                        let t = final(dictionary).types@.last();
                        &&& t.identifier@ == identifier@
                        &&& t.kind == kind
                        &&& t.generics == generics
                        &&& t.public == public
                        &&& t.overloads@.len() == 0
                        &&& t.methods@.len() == 0
                    }
                    &&& *final(dictionary) == (Dictionary {
                        identifiers: final(dictionary).identifiers,
                        types: final(dictionary).types,
                        ..*old(dictionary)
                    })
                },
                Declaration::Function(f) => {
                    &&& final(dictionary).functions@ == if added {
                        old(dictionary).functions@.push(f)
                    } else {
                        old(dictionary).functions@
                    }
                    &&& *final(dictionary) == (Dictionary {
                        identifiers: final(dictionary).identifiers,
                        functions: final(dictionary).functions,
                        ..*old(dictionary)
                    })
                },
                Declaration::Let { identifier, kind } => {
                    &&& grows_by_one(old(dictionary).variables@, final(dictionary).variables@, added)
                    &&& added ==> {
                        let v = final(dictionary).variables@.last();
                        &&& v.identifier@ == identifier@
                        &&& v.kind == kind
                        &&& v.location == 0
                    }
                    &&& *final(dictionary) == (Dictionary {
                        identifiers: final(dictionary).identifiers,
                        variables: final(dictionary).variables,
                        ..*old(dictionary)
                    })
                },
                Declaration::Const { identifier, kind, public, value } => {
                    &&& grows_by_one(old(dictionary).constants@, final(dictionary).constants@, added)
                    &&& added ==> {
                        let c = final(dictionary).constants@.last();
                        &&& c.identifier@ == identifier@
                        &&& c.kind == kind
                        &&& c.public == public
                        &&& c.value == value
                        &&& c.location == 0
                        &&& c.real_value is None
                    }
                    &&& *final(dictionary) == (Dictionary {
                        identifiers: final(dictionary).identifiers,
                        constants: final(dictionary).constants,
                        ..*old(dictionary)
                    })
                },
                Declaration::Impl { target, traits, functions, overloads } => {
                    &&& final(dictionary).implementations@.len() == old(
                        dictionary,
                    ).implementations@.len() + 1
                    &&& final(dictionary).implementations@.drop_last() == old(
                        dictionary,
                    ).implementations@
                    &&& final(dictionary).implementations@.last() == (Implementation {
                        target,
                        traits,
                        functions,
                        overloads,
                        src_loc: 0,
                    })
                    &&& final(errors)@ == old(errors)@
                    &&& *final(dictionary) == (Dictionary {
                        implementations: final(dictionary).implementations,
                        ..*old(dictionary)
                    })
                },
                Declaration::Trait { identifier, public, traits, functions, overloads } => {
                    &&& grows_by_one(old(dictionary).traits@, final(dictionary).traits@, added)
                    &&& added ==> {
                        let tr = final(dictionary).traits@.last();
                        &&& tr.identifier@ == identifier@
                        &&& tr.methods == functions
                        &&& tr.overloads == overloads
                        &&& tr.traits == traits
                        &&& tr.src_loc == 0
                        &&& tr.public == public
                    }
                    &&& *final(dictionary) == (Dictionary {
                        identifiers: final(dictionary).identifiers,
                        traits: final(dictionary).traits,
                        ..*old(dictionary)
                    })
                },
                Declaration::Error { identifier, args, fields } => {
                    &&& grows_by_one(old(dictionary).errors@, final(dictionary).errors@, added)
                    &&& added ==> {
                        let e = final(dictionary).errors@.last();
                        &&& e.identifier@ == identifier@
                        &&& e.args == args
                        &&& e.fields == fields
                        &&& e.src_loc == 0
                    }
                    &&& *final(dictionary) == (Dictionary {
                        identifiers: final(dictionary).identifiers,
                        errors: final(dictionary).errors,
                        ..*old(dictionary)
                    })
                },
                Declaration::Import | Declaration::Expression => {
                    &&& *final(dictionary) == *old(dictionary)
                    &&& final(errors)@ == old(errors)@
                },
                Declaration::Enum { identifier, values } => {
                    &&& grows_by_one(old(dictionary).enums@, final(dictionary).enums@, added)
                    &&& added ==> keys_view(final(dictionary).enums@.last().keys@) == enum_keys(
                        variants_view(values@),
                    )
                    &&& added ==> final(dictionary).enums@.last().identifier@ == identifier@
                },
                Declaration::Struct { identifier, fields, generics, public } => {
                    &&& grows_by_one(old(dictionary).structs@, final(dictionary).structs@, added)
                    &&& added ==> final(dictionary).structs@.last().fields@ == fields@
                    &&& added ==> final(dictionary).structs@.last().identifier@ == identifier@
                },
            }
        }),
{
    let ghost ids0 = dictionary.identifiers@;
    let ghost errs0 = errors@;
    match decl {
        Declaration::Enum { identifier, values } => {
            load_enum(identifier, &values, dictionary, errors);
        },
        Declaration::Struct { identifier, fields, generics, public } => {
            load_struct(identifier, fields, generics, public, dictionary, errors);
        },
        Declaration::Type { identifier, kind, generics, public } => {
            let name = identifier.clone();
            if register_into(dictionary, identifier, IdentifierKinds::Type, errors) {
                dictionary.types.push(
                    TypeDef {
                        kind,
                        identifier: name,
                        generics,
                        public,
                        overloads: Vec::new(),
                        methods: Vec::new(),
                    },
                );
                assert(dictionary.types@.drop_last() =~= old(dictionary).types@);
            }
            proof {
                law_registering_keeps_the_registry(ids0, dictionary.identifiers@, errs0, errors@, declared_name(decl).unwrap().0, IdentifierKinds::Type);
            }
        },
        Declaration::Function(f) => {
            let name = match &f.identifier {
                Some(n) => n.clone(),
                None => String::new(),
            };
            assert(name@ == declared_name(decl).unwrap().0@);
            if register_into(dictionary, name, IdentifierKinds::Function, errors) {
                dictionary.functions.push(f);
            }
            proof {
                law_registering_keeps_the_registry(ids0, dictionary.identifiers@, errs0, errors@, name, IdentifierKinds::Function);
            }
        },
        Declaration::Let { identifier, kind } => {
            let name = identifier.clone();
            if register_into(dictionary, identifier, IdentifierKinds::Variable, errors) {
                dictionary.variables.push(Variable { kind, identifier: name, location: 0 });
                assert(dictionary.variables@.drop_last() =~= old(dictionary).variables@);
            }
            proof {
                law_registering_keeps_the_registry(ids0, dictionary.identifiers@, errs0, errors@, declared_name(decl).unwrap().0, IdentifierKinds::Variable);
            }
        },
        Declaration::Const { identifier, kind, public, value } => {
            let name = identifier.clone();
            if register_into(dictionary, identifier, IdentifierKinds::Variable, errors) {
                dictionary.constants.push(
                    Constant { kind, identifier: name, location: 0, public, value, real_value: None },
                );
                assert(dictionary.constants@.drop_last() =~= old(dictionary).constants@);
            }
            proof {
                law_registering_keeps_the_registry(ids0, dictionary.identifiers@, errs0, errors@, declared_name(decl).unwrap().0, IdentifierKinds::Variable);
            }
        },
        Declaration::Impl { target, traits, functions, overloads } => {
            dictionary.implementations.push(
                Implementation { target, traits, functions, overloads, src_loc: 0 },
            );
            assert(dictionary.identifiers@.take(ids0.len() as int) =~= ids0);
        },
        Declaration::Trait { identifier, public, traits, functions, overloads } => {
            let name = identifier.clone();
            if register_into(dictionary, identifier, IdentifierKinds::Trait, errors) {
                dictionary.traits.push(
                    Trait { identifier: name, methods: functions, overloads, traits, src_loc: 0, public },
                );
                assert(dictionary.traits@.drop_last() =~= old(dictionary).traits@);
            }
            proof {
                law_registering_keeps_the_registry(ids0, dictionary.identifiers@, errs0, errors@, declared_name(decl).unwrap().0, IdentifierKinds::Trait);
            }
        },
        Declaration::Error { identifier, args, fields } => {
            let name = identifier.clone();
            if register_into(dictionary, identifier, IdentifierKinds::Error, errors) {
                dictionary.errors.push(Error { identifier: name, args, fields, src_loc: 0 });
                assert(dictionary.errors@.drop_last() =~= old(dictionary).errors@);
            }
            proof {
                law_registering_keeps_the_registry(ids0, dictionary.identifiers@, errs0, errors@, declared_name(decl).unwrap().0, IdentifierKinds::Error);
            }
        },
        Declaration::Import | Declaration::Expression => {
            assert(dictionary.identifiers@.take(ids0.len() as int) =~= ids0);
        },
    }
}

} // verus!
