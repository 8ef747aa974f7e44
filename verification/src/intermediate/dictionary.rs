//! Dictionaries of the names a program declares.
use vstd::prelude::*;

use crate::codeblock_parser;
use crate::expression_parser;
use crate::lexer::lexemes::Tokens;
use crate::libloader;
use crate::text::{chars_of, same_chars};

verus! {

#[derive(Debug)]
pub enum Imports {
    Dll(String, Option<libloader::Dictionary>),
    Rd(String, Option<Dictionary>),
    RDll(String, Option<Dictionary>),
}

/// all of the defined types/variables (enum, struct, function) in the current scope will be registered here
#[derive(Debug)]
pub struct Dictionary {
    pub functions: Vec<Function>,
    pub types: Vec<TypeDef>,
    pub enums: Vec<Enum>,
    pub structs: Vec<Struct>,
    pub variables: Vec<Variable>,
    pub constants: Vec<Constant>,
    pub identifiers: Vec<(String, IdentifierKinds)>,
    pub imports: Vec<Import>,
    pub implementations: Vec<Implementation>,
    pub traits: Vec<Trait>,
    pub errors: Vec<Error>,
}

#[derive(Debug)]
pub struct Import {
    pub path: String,
    pub alias: Option<String>,
    pub code: Option<Imports>,
}

#[derive(Debug)]
pub struct Trait {
    pub identifier: String,
    pub methods: Vec<Function>,
    pub overloads: Vec<Overload>,
    // dependences
    pub traits: Vec<NestedIdent>,
    pub src_loc: usize,
    pub public: bool,
}

#[derive(Debug, Clone, Copy, PartialEq, Eq, Structural)]
pub enum IdentifierKinds {
    Function,
    Type,
    Enum,
    Struct,
    Variable,
    Namespace,
    Trait,
    Error,
}

#[derive(Debug)]
pub struct TypeDef {
    pub kind: ShallowType,
    pub identifier: String,
    pub generics: Vec<GenericDecl>,
    pub public: bool,
    pub overloads: Vec<Overload>,
    pub methods: Vec<Function>,
}

#[derive(Debug)]
pub struct GenericDecl {
    pub identifier: String,
    pub traits: Vec<NestedIdent>,
}

#[derive(Debug)]
pub struct Error {
    pub identifier: String,
    pub src_loc: usize,
    pub fields: Vec<(String, ErrorField)>,
    pub args: Vec<(String, ShallowType)>,
}

#[derive(Debug)]
pub enum ErrorField {
    Expression(expression_parser::ValueType),
    CodeBlock(Vec<codeblock_parser::Nodes>),
}

#[derive(Debug)]
pub struct Function {
    /// function identifiers will be changed to allow for function overload
    /// name mangler rules: "{identifier}:{args.foreach("{typeof}:")}"
    /// example:
    /// fun myFun(n: int, type: char): int
    /// fun nothing()
    /// are mangled to:
    /// "myFun:int:char"
    /// "nothing:"
    pub identifier: Option<String>,
    /// type of args in order
    pub args: Vec<(String, ShallowType)>,
    /// size needed to allocate on stack while function call (args.len() included)
    pub stack_size: Option<usize>,
    /// location in bytecode, so runtime knows where to jump
    pub location: Option<usize>,
    pub return_type: Option<ShallowType>,
    pub can_yeet: bool,
    pub generics: Vec<GenericDecl>,
    /// location in source code
    pub src_loc: usize,
    pub public: bool,
    pub code: Vec<codeblock_parser::Nodes>,
}

#[derive(Debug)]
pub struct Overload {
    pub operator: Tokens,
    /// type of args in order
    pub arg: (String, ShallowType),
    /// size needed to allocate on stack while function call (args.len() included)
    pub stack_size: Option<usize>,
    /// location in bytecode, so runtime knows where to jump
    pub location: Option<usize>,
    pub return_type: Option<ShallowType>,
    pub generics: Vec<GenericDecl>,
    /// location in source code
    pub src_loc: usize,
    pub public: bool,
    pub code: Vec<codeblock_parser::Nodes>,
}

#[derive(Debug)]
pub struct Enum {
    pub identifier: String,
    /// enum values and their offset
    /// enum ErrCode { Continue = 100, SwitchingProtocols, ..., Ok = 200, ... }
    pub keys: Vec<(String, usize)>,
    /// location in source code
    pub src_loc: usize,
    pub methods: Vec<Function>,
    pub overloads: Vec<Overload>,
}

pub type NestedIdent = Vec<String>;

#[derive(Debug)]
pub struct Struct {
    pub generics: Vec<GenericDecl>,
    pub identifier: String,
    pub fields: Vec<(String, ShallowType)>,
    /// location in source code
    pub src_loc: usize,
    pub traits: Vec<NestedIdent>,
    pub public: bool,
}

#[derive(Debug)]
pub struct Implementation {
    pub target: NestedIdent,
    pub traits: Vec<NestedIdent>,
    pub functions: Vec<Function>,
    pub overloads: Vec<Overload>,
    /// location in source code
    pub src_loc: usize,
}

#[derive(Debug)]
pub struct Variable {
    pub kind: Option<ShallowType>,
    pub identifier: String,
    /// location on stack
    pub location: usize,
}

#[derive(Debug)]
pub struct Constant {
    pub kind: ShallowType,
    pub identifier: String,
    /// location on stack
    pub location: usize,
    pub public: bool,
    pub value: expression_parser::ValueType,
    pub real_value: Option<ConstValue>,
}

#[derive(Debug)]
pub enum ConstValue {
    Int(usize),
    /// floating-point value, held as its IEEE-754 bit pattern
    Float(u64),
    Char(char),
    Bool(bool),
    Usize(usize),
    Function(Function),
    String(String),
    Null,
    Array(Vec<ConstValue>),
}

/// identifiers can not contain these characters: + - * / = % ; : , . ({<[]>}) & | ! ? " '
#[derive(Debug)]
pub enum Types {
    Int,
    Float,
    Usize,
    Char,
    Byte,
    Bool,
    Null,
    /// refference type
    Pointer(Box<Types>),
    /// type of an array, lenght
    Array(Box<Types>, usize),
    /// non-primmitive types holding their identifiers
    Function(String, GenericExpr),
    Enum(String, GenericExpr),
    Struct(String, GenericExpr),
}

pub type GenericExpr = Vec<ShallowType>;

#[derive(Debug)]
pub struct ShallowType {
    pub is_fun: Option<Box<Function>>,
    /// if Some then it is an array of that length
    pub arr_len: Option<usize>,
    pub refs: usize,
    pub main: NestedIdent,
    pub generics: GenericExpr,
}

impl ShallowType {
    pub fn empty() -> (t: Self)
        ensures
            t.is_fun is None,
            t.arr_len is None,
            t.refs == 0,
            t.main@.len() == 0,
            t.generics@.len() == 0,
    {
        ShallowType { is_fun: None, arr_len: None, refs: 0, main: vec![], generics: vec![] }
    }

    /// Compares two types: first their references, then their array
    /// lengths, then their names and generic arguments.
    pub fn cmp(&self, other: &Self, dict: &Dictionary) -> (c: TypeComparison)
        ensures
            c == type_comparison(*self, *other),
            c is Equal <==> same_type(*self, *other),
    {
        if self.refs != other.refs {
            return TypeComparison::ReferenceDiff(refs_diff(self.refs, other.refs));
        }
        if !same_len(self.arr_len, other.arr_len) {
            match (self.arr_len, other.arr_len) {
                (Some(a), Some(b)) => {
                    return TypeComparison::ArrayDiff(a, b);
                },
                _ => {
                    return TypeComparison::NotEqual;
                },
            }
        }
        if same_shallow(self, other) {
            TypeComparison::Equal
        } else {
            TypeComparison::NotEqual
        }
    }
}

/// The names of a path, as character sequences.
pub open spec fn idents_view(v: Seq<String>) -> Seq<Seq<char>> {
    v.map_values(|s: String| s@)
}

/// Two types are the same: same references, array length, name and
/// generic arguments.
pub open spec fn same_type(a: ShallowType, b: ShallowType) -> bool
    decreases a,
{
    &&& a.refs == b.refs
    &&& a.arr_len == b.arr_len
    &&& idents_view(a.main@) == idents_view(b.main@)
    &&& a.generics@.len() == b.generics@.len()
    &&& forall|i: int|
        0 <= i < a.generics@.len() ==> same_type(#[trigger] a.generics@[i], b.generics@[i])
}

/// What comparing `a` with `b` gives: the difference in references, the
/// two array lengths, `NotEqual` when only one is an array, then `Equal`
/// or `NotEqual`.
pub open spec fn type_comparison(a: ShallowType, b: ShallowType) -> TypeComparison {
    if a.refs != b.refs {
        TypeComparison::ReferenceDiff(refs_difference(a.refs, b.refs))
    } else if a.arr_len != b.arr_len {
        match (a.arr_len, b.arr_len) {
            (Some(x), Some(y)) => TypeComparison::ArrayDiff(x, y),
            _ => TypeComparison::NotEqual,
        }
    } else if same_type(a, b) {
        TypeComparison::Equal
    } else {
        TypeComparison::NotEqual
    }
}

/// The difference of two reference counts as an `i32`: each count is cut
/// to an `i32` and the difference wraps around (it is the plain difference
/// when both counts are at most `i32::MAX`).
pub open spec fn refs_difference(a: usize, b: usize) -> i32 {
    (a as i32).wrapping_sub(b as i32)
}

fn refs_diff(a: usize, b: usize) -> (d: i32)
    ensures
        d == refs_difference(a, b),
        a <= i32::MAX && b <= i32::MAX ==> d == a - b,
{
    let d = (a as i32).wrapping_sub(b as i32);
    proof {
        if a <= i32::MAX && b <= i32::MAX {
            assert(d == a - b) by (bit_vector)
                requires
                    a <= 0x7fff_ffffusize,
                    b <= 0x7fff_ffffusize,
                    d == (a as i32).wrapping_sub(b as i32),
            ;
        }
    }
    d
}

fn same_len(a: Option<usize>, b: Option<usize>) -> (r: bool)
    ensures
        r == (a == b),
{
    match (a, b) {
        (Some(x), Some(y)) => x == y,
        (None, None) => true,
        _ => false,
    }
}

fn same_idents(a: &Vec<String>, b: &Vec<String>) -> (r: bool)
    ensures
        r == (idents_view(a@) == idents_view(b@)),
{
    if a.len() != b.len() {
        assert(idents_view(a@).len() != idents_view(b@).len());
        return false;
    }
    let mut i: usize = 0;
    while i < a.len()
        invariant
            i <= a@.len(),
            a@.len() == b@.len(),
            forall|j: int| 0 <= j < i ==> a@[j]@ == b@[j]@,
        decreases a@.len() - i,
    {
        if !same_chars(&chars_of(a[i].as_str()), &chars_of(b[i].as_str())) {
            assert(idents_view(a@)[i as int] != idents_view(b@)[i as int]);
            return false;
        }
        i += 1;
    }
    assert(idents_view(a@) =~= idents_view(b@));
    true
}

fn same_shallow(a: &ShallowType, b: &ShallowType) -> (r: bool)
    ensures
        r == same_type(*a, *b),
    decreases *a,
{
    if a.refs != b.refs || !same_len(a.arr_len, b.arr_len) || !same_idents(&a.main, &b.main) {
        return false;
    }
    if a.generics.len() != b.generics.len() {
        return false;
    }
    let mut i: usize = 0;
    while i < a.generics.len()
        invariant
            i <= a.generics@.len(),
            a.generics@.len() == b.generics@.len(),
            a.refs == b.refs,
            a.arr_len == b.arr_len,
            idents_view(a.main@) == idents_view(b.main@),
            forall|j: int| 0 <= j < i ==> same_type(#[trigger] a.generics@[j], b.generics@[j]),
        decreases a.generics@.len() - i,
    {
        proof {
            assert(decreases_to!(*a => a.generics));
        }
        if !same_shallow(&a.generics[i], &b.generics[i]) {
            return false;
        }
        i += 1;
    }
    true
}

/// The registry holds `name`.
pub open spec fn registry_contains(ids: Seq<(String, IdentifierKinds)>, name: Seq<char>) -> bool {
    exists|j: int| 0 <= j < ids.len() && (#[trigger] ids[j]).0@ == name
}

/// Position of the first entry of the registry, from `i` on, registered
/// under `name`.
pub open spec fn first_index_from(ids: Seq<(String, IdentifierKinds)>, name: Seq<char>, i: int) -> Option<int>
    decreases ids.len() - i,
{
    if i >= ids.len() || i < 0 {
        None
    } else if ids[i].0@ == name {
        Some(i)
    } else {
        first_index_from(ids, name, i + 1)
    }
}

/// Position of the first entry of the registry registered under `name`.
pub open spec fn registry_index(ids: Seq<(String, IdentifierKinds)>, name: Seq<char>) -> Option<int> {
    first_index_from(ids, name, 0)
}

/// Kind of the first entry of the registry registered under `name`.
pub open spec fn registry_kind(ids: Seq<(String, IdentifierKinds)>, name: Seq<char>) -> Option<IdentifierKinds> {
    match registry_index(ids, name) {
        Some(i) => Some(ids[i].1),
        None => None,
    }
}

/// No two entries of the registry share a name.
pub open spec fn registry_unique(ids: Seq<(String, IdentifierKinds)>) -> bool {
    forall|a: int, b: int| 0 <= a < b < ids.len() ==> (#[trigger] ids[a]).0@ != (#[trigger] ids[b]).0@
}

pub proof fn lemma_first_index_from(ids: Seq<(String, IdentifierKinds)>, name: Seq<char>, i: int)
    requires
        0 <= i <= ids.len(),
    ensures
        match first_index_from(ids, name, i) {
            Some(k) => i <= k < ids.len() && ids[k].0@ == name && forall|j: int| i <= j < k ==> (#[trigger] ids[j]).0@ != name,
            None => forall|j: int| i <= j < ids.len() ==> (#[trigger] ids[j]).0@ != name,
        },
    decreases ids.len() - i,
{
    if i < ids.len() && ids[i].0@ != name {
        lemma_first_index_from(ids, name, i + 1);
    }
}

impl Dictionary {
    pub fn new() -> (d: Self)
        ensures
            d.functions@.len() == 0,
            d.types@.len() == 0,
            d.enums@.len() == 0,
            d.structs@.len() == 0,
            d.variables@.len() == 0,
            d.constants@.len() == 0,
            d.identifiers@.len() == 0,
            d.imports@.len() == 0,
            d.implementations@.len() == 0,
            d.traits@.len() == 0,
            d.errors@.len() == 0,
    {
        Dictionary {
            functions: vec![],
            types: vec![],
            enums: vec![],
            structs: vec![],
            variables: vec![],
            constants: vec![],
            identifiers: vec![],
            imports: vec![],
            implementations: vec![],
            traits: vec![],
            errors: vec![],
        }
    }

    /// Position of the first identifier registered under `identifier`.
    pub fn index_of(&self, identifier: String) -> (r: Option<usize>)
        ensures
            match r {
                Some(i) => registry_index(self.identifiers@, identifier@) == Some(i as int),
                None => registry_index(self.identifiers@, identifier@) is None,
            },
    {
        proof {
            lemma_first_index_from(self.identifiers@, identifier@, 0);
        }
        let mut i: usize = 0;
        loop
            invariant
                i <= self.identifiers@.len(),
                registry_index(self.identifiers@, identifier@) == first_index_from(self.identifiers@, identifier@, i as int),
            decreases self.identifiers@.len() - i,
        {
            if i >= self.identifiers.len() {
                return None;
            }
            if self.identifiers[i].0 == identifier {
                return Some(i);
            }
            i += 1;
        }
    }

    /// Kind of the first identifier registered under `identifier`.
    pub fn type_of(&self, identifier: &str) -> (r: Option<&IdentifierKinds>)
        ensures
            match r {
                Some(k) => registry_kind(self.identifiers@, identifier@) == Some(*k),
                None => registry_kind(self.identifiers@, identifier@) is None,
            },
    {
        let name = chars_of(identifier);
        let mut i: usize = 0;
        while i < self.identifiers.len()
            invariant
                i <= self.identifiers@.len(),
                name@ == identifier@,
                registry_index(self.identifiers@, identifier@) == first_index_from(self.identifiers@, identifier@, i as int),
            decreases self.identifiers@.len() - i,
        {
            let ident = chars_of(self.identifiers[i].0.as_str());
            if same_chars(&ident, &name) {
                return Some(&self.identifiers[i].1);
            }
            i += 1;
        }
        None
    }

    /// Registers `name` as an identifier of the given kind, unless it is
    /// registered already; returns whether it was registered.
    pub fn register_id(&mut self, name: String, kind: IdentifierKinds) -> (added: bool)
        ensures
            added == !registry_contains(old(self).identifiers@, name@),
            added ==> final(self).identifiers@ == old(self).identifiers@.push((name, kind)),
            !added ==> final(self).identifiers@ == old(self).identifiers@,
            final(self).functions == old(self).functions,
            final(self).types == old(self).types,
            final(self).enums == old(self).enums,
            final(self).structs == old(self).structs,
            final(self).variables == old(self).variables,
            final(self).constants == old(self).constants,
            final(self).imports == old(self).imports,
            final(self).implementations == old(self).implementations,
            final(self).traits == old(self).traits,
            final(self).errors == old(self).errors,
    {
        if self.contains(&name) {
            return false;
        }
        self.identifiers.push((name, kind));
        true
    }

    /// Registers `name` as an identifier of the given kind, even when it is
    /// registered already.
    pub fn force_id(&mut self, name: String, kind: IdentifierKinds)
        ensures
            final(self).identifiers@ == old(self).identifiers@.push((name, kind)),
            final(self).functions == old(self).functions,
            final(self).types == old(self).types,
            final(self).enums == old(self).enums,
            final(self).structs == old(self).structs,
            final(self).variables == old(self).variables,
            final(self).constants == old(self).constants,
            final(self).imports == old(self).imports,
            final(self).implementations == old(self).implementations,
            final(self).traits == old(self).traits,
            final(self).errors == old(self).errors,
    {
        self.identifiers.push((name, kind));
    }

    /// Whether `name` is registered.
    pub fn contains(&self, name: &String) -> (b: bool)
        ensures
            b == registry_contains(self.identifiers@, name@),
    {
        let mut i: usize = 0;
        while i < self.identifiers.len()
            invariant
                i <= self.identifiers@.len(),
                forall|j: int| 0 <= j < i ==> (#[trigger] self.identifiers@[j]).0@ != name@,
            decreases self.identifiers@.len() - i,
        {
            if self.identifiers[i].0 == *name {
                return true;
            }
            i += 1;
        }
        false
    }
}

/// Registering a name that is not yet registered keeps every name of the
/// registry unique.
pub proof fn law_register_keeps_names_unique(
    ids: Seq<(String, IdentifierKinds)>,
    name: String,
    kind: IdentifierKinds,
)
    requires
        registry_unique(ids),
        !registry_contains(ids, name@),
    ensures
        registry_unique(ids.push((name, kind))),
{
    let new_ids = ids.push((name, kind));
    assert forall|a: int, b: int| 0 <= a < b < new_ids.len() implies (#[trigger] new_ids[a]).0@ != (
    #[trigger] new_ids[b]).0@ by {
        if b == ids.len() {
            assert(new_ids[a] == ids[a]);
        } else {
            assert(new_ids[a] == ids[a]);
            assert(new_ids[b] == ids[b]);
        }
    }
}

/// After a name is newly registered, looking it up finds the new entry:
/// its position is the old length of the registry and its kind is the
/// kind it was registered with.
pub proof fn law_lookup_after_register(
    ids: Seq<(String, IdentifierKinds)>,
    name: String,
    kind: IdentifierKinds,
)
    requires
        !registry_contains(ids, name@),
    ensures
        registry_index(ids.push((name, kind)), name@) == Some(ids.len() as int),
        registry_kind(ids.push((name, kind)), name@) == Some(kind),
        registry_contains(ids.push((name, kind)), name@),
{
    let new_ids = ids.push((name, kind));
    lemma_first_index_from(new_ids, name@, 0);
    assert(new_ids[ids.len() as int].0@ == name@);
    assert forall|j: int| 0 <= j < ids.len() implies (#[trigger] new_ids[j]).0@ != name@ by {
        assert(new_ids[j] == ids[j]);
    }
}

/// Looking up other names is not affected by registering a name.
pub proof fn law_register_keeps_other_lookups(
    ids: Seq<(String, IdentifierKinds)>,
    name: String,
    kind: IdentifierKinds,
    other: Seq<char>,
)
    requires
        other != name@,
    ensures
        registry_index(ids.push((name, kind)), other) == registry_index(ids, other),
        registry_kind(ids.push((name, kind)), other) == registry_kind(ids, other),
{
    let new_ids = ids.push((name, kind));
    lemma_first_index_from(new_ids, other, 0);
    lemma_first_index_from(ids, other, 0);
    assert forall|j: int| 0 <= j < ids.len() implies (#[trigger] new_ids[j]) == ids[j] by {}
    match registry_index(ids, other) {
        Some(k) => {
            assert(new_ids[k] == ids[k]);
            assert forall|j: int| 0 <= j < k implies (#[trigger] new_ids[j]).0@ != other by {
                assert(new_ids[j] == ids[j]);
            }
            lemma_first_index_is(new_ids, other, k);
        },
        None => {
            assert forall|j: int| 0 <= j < new_ids.len() implies (#[trigger] new_ids[j]).0@ != other by {
                if j < ids.len() {
                    assert(new_ids[j] == ids[j]);
                }
            }
            lemma_first_index_none(new_ids, other, 0);
        },
    }
}

proof fn lemma_first_index_is(ids: Seq<(String, IdentifierKinds)>, name: Seq<char>, k: int)
    requires
        0 <= k < ids.len(),
        ids[k].0@ == name,
        forall|j: int| 0 <= j < k ==> (#[trigger] ids[j]).0@ != name,
    ensures
        first_index_from(ids, name, 0) == Some(k),
{
    lemma_first_index_from(ids, name, 0);
}

proof fn lemma_first_index_none(ids: Seq<(String, IdentifierKinds)>, name: Seq<char>, i: int)
    requires
        0 <= i <= ids.len(),
        forall|j: int| i <= j < ids.len() ==> (#[trigger] ids[j]).0@ != name,
    ensures
        first_index_from(ids, name, i) is None,
    decreases ids.len() - i,
{
    if i < ids.len() {
        lemma_first_index_none(ids, name, i + 1);
    }
}

pub enum TypeComparison {
    /// types are equal
    Equal,
    /// types are not equal
    NotEqual,
    /// types are not equal, but they are compatible
    Compatible,
    /// types will be equal after referencing or dereferencing
    ReferenceDiff(i32),
    /// both are arrays, but they have different lengths
    /// len1 len2
    ArrayDiff(usize, usize),
}

} // verus!
