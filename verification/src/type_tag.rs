//! Move types: their text, their order and their canonical form.
use sui_sdk_types::{StructTag as SdkStructTag, TypeTag as SdkTypeTag};
use vstd::prelude::*;
use vstd::string::StringExecFns;

use crate::address::{address_text, hex_text, law_address_text, SuiAddress};
use crate::order::{
    agree_before, byte_values, bytes_order, char_values, compare_bytes, compare_text,
    law_bytes_order, law_text_order, lemma_bytes_order, lemma_sequence_order_transitive,
    lemma_text_order, number_order, text_order, Order,
};
use crate::spacing::{
    compact, compacted, law_spaceless_is_compact, lemma_spaceless_together, spaceless,
};

verus! {

/// A Move type.
#[derive(Debug, PartialEq, Eq, PartialOrd, Ord, Hash)]
pub enum TypeTag {
    Bool,
    U8,
    U64,
    U128,
    Address,
    Signer,
    Vector(Box<TypeTag>),
    Struct(Box<StructTag>),
    U16,
    U32,
    U256,
}

/// A Move struct type, with its type arguments.
#[derive(Debug, PartialEq, Eq, PartialOrd, Ord, Hash)]
pub struct StructTag {
    pub address: SuiAddress,
    pub module: String,
    pub name: String,
    pub type_params: Vec<TypeTag>,
}

/// The mathematical view of a `TypeTag`.
pub enum TypeTree {
    Bool,
    U8,
    U64,
    U128,
    Address,
    Signer,
    Vector(Box<TypeTree>),
    Struct(StructTree),
    U16,
    U32,
    U256,
}

/// The mathematical view of a `StructTag`.
pub struct StructTree {
    pub address: Seq<u8>,
    pub module: Seq<char>,
    pub name: Seq<char>,
    pub type_params: Seq<TypeTree>,
}

impl TypeTag {
    /// The type as a tree.
    pub open spec fn tree(&self) -> TypeTree
        decreases self,
    {
        match self {
            TypeTag::Bool => TypeTree::Bool,
            TypeTag::U8 => TypeTree::U8,
            TypeTag::U64 => TypeTree::U64,
            TypeTag::U128 => TypeTree::U128,
            TypeTag::Address => TypeTree::Address,
            TypeTag::Signer => TypeTree::Signer,
            TypeTag::Vector(element) => TypeTree::Vector(Box::new(element.tree())),
            TypeTag::Struct(tag) => TypeTree::Struct(tag.tree()),
            TypeTag::U16 => TypeTree::U16,
            TypeTag::U32 => TypeTree::U32,
            TypeTag::U256 => TypeTree::U256,
        }
    }
}

impl StructTag {
    /// The struct type as a tree.
    pub open spec fn tree(&self) -> StructTree
        decreases self,
    {
        let params = self.type_params@;
        StructTree {
            address: self.address@,
            module: self.module@,
            name: self.name@,
            type_params: Seq::new(
                params.len(),
                |i: int|
                    if 0 <= i < params.len() {
                        params[i].tree()
                    } else {
                        arbitrary()
                    },
            ),
        }
    }
}

impl View for TypeTag {
    type V = TypeTree;

    open spec fn view(&self) -> TypeTree {
        self.tree()
    }
}

impl View for StructTag {
    type V = StructTree;

    open spec fn view(&self) -> StructTree {
        self.tree()
    }
}

/// A type argument is smaller than the type it stands in.
proof fn lemma_type_param_smaller(tag: TypeTag, i: int)
    requires
        tag is Struct,
        0 <= i < tag->Struct_0.type_params@.len(),
    ensures
        decreases_to!(tag => tag->Struct_0.type_params@[i]),
{
    let params = tag->Struct_0.type_params;
    assert(decreases_to!(tag => tag->Struct_0));
    assert(decreases_to!(tag->Struct_0 => tag->Struct_0.type_params));
    assert(decreases_to!(params => params@));
    assert(decreases_to!(params@ => params@[i]));
}

impl Clone for TypeTag {
    fn clone(&self) -> (copy: TypeTag)
        ensures
            copy@ == self@,
        decreases self,
    {
        match self {
            TypeTag::Bool => TypeTag::Bool,
            TypeTag::U8 => TypeTag::U8,
            TypeTag::U64 => TypeTag::U64,
            TypeTag::U128 => TypeTag::U128,
            TypeTag::Address => TypeTag::Address,
            TypeTag::Signer => TypeTag::Signer,
            TypeTag::Vector(element) => TypeTag::Vector(Box::new((**element).clone())),
            TypeTag::Struct(tag) => {
                let mut type_params: Vec<TypeTag> = Vec::new();
                let mut i: usize = 0;
                while i < tag.type_params.len()
                    invariant
                        i <= tag.type_params@.len(),
                        type_params@.len() == i,
                        *self == TypeTag::Struct(*tag),
                        forall|j: int|
                            0 <= j < i ==> (#[trigger] type_params@[j])@ == tag.type_params@[j]@,
                    decreases tag.type_params@.len() - i,
                {
                    proof {
                        lemma_type_param_smaller(*self, i as int);
                    }
                    type_params.push(tag.type_params[i].clone());
                    i = i + 1;
                }
                let copy: StructTag = StructTag {
                    address: tag.address,
                    module: tag.module.clone(),
                    name: tag.name.clone(),
                    type_params,
                };
                assert(copy@.type_params =~= tag@.type_params);
                TypeTag::Struct(Box::new(copy))
            },
            TypeTag::U16 => TypeTag::U16,
            TypeTag::U32 => TypeTag::U32,
            TypeTag::U256 => TypeTag::U256,
        }
    }
}

/// Where a type's constructor stands among the constructors.
pub open spec fn constructor_rank(tree: TypeTree) -> int {
    match tree {
        TypeTree::Bool => 0,
        TypeTree::U8 => 1,
        TypeTree::U64 => 2,
        TypeTree::U128 => 3,
        TypeTree::Address => 4,
        TypeTree::Signer => 5,
        TypeTree::Vector(_) => 6,
        TypeTree::Struct(_) => 7,
        TypeTree::U16 => 8,
        TypeTree::U32 => 9,
        TypeTree::U256 => 10,
    }
}

/// The order of types: by constructor, then by what it holds.
pub open spec fn type_order(a: TypeTree, b: TypeTree) -> Order
    decreases a,
{
    match (a, b) {
        (TypeTree::Vector(x), TypeTree::Vector(y)) => type_order(*x, *y),
        (TypeTree::Struct(x), TypeTree::Struct(y)) => struct_order(x, y),
        _ => number_order(constructor_rank(a), constructor_rank(b)),
    }
}

/// The order of struct types: by address, module, name and type arguments, in this order.
pub open spec fn struct_order(a: StructTree, b: StructTree) -> Order
    decreases a,
{
    bytes_order(a.address, b.address).or(text_order(a.module, b.module)).or(
        text_order(a.name, b.name),
    ).or(types_order(a.type_params, b.type_params))
}

/// The order of type argument lists: by their first difference; a proper prefix comes first.
pub open spec fn types_order(a: Seq<TypeTree>, b: Seq<TypeTree>) -> Order
    decreases a,
{
    if a.len() == 0 || b.len() == 0 {
        number_order(a.len() as int, b.len() as int)
    } else {
        type_order(a[0], b[0]).or(
            types_order(a.subrange(1, a.len() as int), b.subrange(1, b.len() as int)),
        )
    }
}

/// Types are ordered alike from either side, and are equal in order only where they are the same.
pub proof fn law_type_order(a: TypeTree, b: TypeTree)
    ensures
        type_order(a, b) is Equal <==> a == b,
        type_order(b, a) == type_order(a, b).reverse(),
    decreases a,
{
    match (a, b) {
        (TypeTree::Vector(x), TypeTree::Vector(y)) => {
            law_type_order(*x, *y);
        },
        (TypeTree::Struct(x), TypeTree::Struct(y)) => {
            lemma_bytes_order(x.address, y.address);
            lemma_text_order(x.module, y.module);
            lemma_text_order(x.name, y.name);
            lemma_types_order(x.type_params, y.type_params);
            assert(type_order(a, b) == struct_order(x, y));
            assert(type_order(b, a) == struct_order(y, x));
        },
        _ => {},
    }
}

proof fn lemma_types_order(a: Seq<TypeTree>, b: Seq<TypeTree>)
    ensures
        types_order(a, b) is Equal <==> a == b,
        types_order(b, a) == types_order(a, b).reverse(),
    decreases a,
{
    if a.len() > 0 && b.len() > 0 {
        let a_rest = a.subrange(1, a.len() as int);
        let b_rest = b.subrange(1, b.len() as int);
        law_type_order(a[0], b[0]);
        lemma_types_order(a_rest, b_rest);
        assert(a =~= seq![a[0]] + a_rest);
        assert(b =~= seq![b[0]] + b_rest);
    } else if a.len() == b.len() {
        assert(a =~= b);
    }
}

/// `Less` carries over a third type.
pub proof fn law_type_order_transitive(a: TypeTree, b: TypeTree, c: TypeTree)
    requires
        type_order(a, b) is Less,
        type_order(b, c) is Less,
    ensures
        type_order(a, c) is Less,
    decreases a,
{
    match (a, b, c) {
        (TypeTree::Vector(x), TypeTree::Vector(y), TypeTree::Vector(z)) => {
            law_type_order_transitive(*x, *y, *z);
        },
        (TypeTree::Struct(x), TypeTree::Struct(y), TypeTree::Struct(z)) => {
            assert(type_order(a, b) == struct_order(x, y));
            assert(type_order(b, c) == struct_order(y, z));
            lemma_struct_order_transitive(x, y, z);
        },
        _ => {},
    }
}

proof fn lemma_struct_order_transitive(a: StructTree, b: StructTree, c: StructTree)
    requires
        struct_order(a, b) is Less,
        struct_order(b, c) is Less,
    ensures
        struct_order(a, c) is Less,
    decreases a,
{
    lemma_bytes_order(a.address, b.address);
    lemma_bytes_order(b.address, c.address);
    lemma_bytes_order(a.address, c.address);
    lemma_text_order(a.module, b.module);
    lemma_text_order(b.module, c.module);
    lemma_text_order(a.module, c.module);
    lemma_text_order(a.name, b.name);
    lemma_text_order(b.name, c.name);
    lemma_text_order(a.name, c.name);
    if bytes_order(a.address, b.address) is Less && bytes_order(b.address, c.address) is Less {
        lemma_sequence_order_transitive(
            byte_values(a.address),
            byte_values(b.address),
            byte_values(c.address),
        );
    } else if a.address == b.address && b.address == c.address {
        if text_order(a.module, b.module) is Less && text_order(b.module, c.module) is Less {
            lemma_sequence_order_transitive(
                char_values(a.module),
                char_values(b.module),
                char_values(c.module),
            );
        } else if a.module == b.module && b.module == c.module {
            if text_order(a.name, b.name) is Less && text_order(b.name, c.name) is Less {
                lemma_sequence_order_transitive(
                    char_values(a.name),
                    char_values(b.name),
                    char_values(c.name),
                );
            } else if a.name == b.name && b.name == c.name {
                lemma_types_order_transitive(a.type_params, b.type_params, c.type_params);
            }
        }
    }
}

proof fn lemma_types_order_transitive(a: Seq<TypeTree>, b: Seq<TypeTree>, c: Seq<TypeTree>)
    requires
        types_order(a, b) is Less,
        types_order(b, c) is Less,
    ensures
        types_order(a, c) is Less,
    decreases a,
{
    if a.len() > 0 && b.len() > 0 && c.len() > 0 {
        law_type_order(a[0], b[0]);
        law_type_order(b[0], c[0]);
        if type_order(a[0], b[0]) is Less && type_order(b[0], c[0]) is Less {
            law_type_order_transitive(a[0], b[0], c[0]);
        } else if a[0] == b[0] && b[0] == c[0] {
            lemma_types_order_transitive(
                a.subrange(1, a.len() as int),
                b.subrange(1, b.len() as int),
                c.subrange(1, c.len() as int),
            );
        }
    }
}

impl TypeTag {
    fn constructor(&self) -> (rank: u8)
        ensures
            rank == constructor_rank(self@),
    {
        match self {
            TypeTag::Bool => 0,
            TypeTag::U8 => 1,
            TypeTag::U64 => 2,
            TypeTag::U128 => 3,
            TypeTag::Address => 4,
            TypeTag::Signer => 5,
            TypeTag::Vector(_) => 6,
            TypeTag::Struct(_) => 7,
            TypeTag::U16 => 8,
            TypeTag::U32 => 9,
            TypeTag::U256 => 10,
        }
    }

    /// Compares two types.
    pub fn compare(&self, other: &TypeTag) -> (order: Order)
        ensures
            order == type_order(self@, other@),
        decreases self,
    {
        match (self, other) {
            (TypeTag::Vector(x), TypeTag::Vector(y)) => (**x).compare(&**y),
            (TypeTag::Struct(x), TypeTag::Struct(y)) => {
                assert(type_order(self@, other@) == struct_order(x@, y@));
                match compare_bytes(x.address.bytes.as_slice(), y.address.bytes.as_slice()) {
                    Order::Equal => {},
                    order => {
                        return order;
                    },
                }
                match compare_text(x.module.as_str(), y.module.as_str()) {
                    Order::Equal => {},
                    order => {
                        return order;
                    },
                }
                match compare_text(x.name.as_str(), y.name.as_str()) {
                    Order::Equal => {},
                    order => {
                        return order;
                    },
                }
                let ghost a = x@.type_params;
                let ghost b = y@.type_params;
                assert(a.skip(0) =~= a);
                assert(b.skip(0) =~= b);
                let mut i: usize = 0;
                while i < x.type_params.len() && i < y.type_params.len()
                    invariant
                        *self == TypeTag::Struct(*x),
                        a == x@.type_params,
                        b == y@.type_params,
                        i <= x.type_params@.len(),
                        i <= y.type_params@.len(),
                        type_order(self@, other@) == types_order(a.skip(i as int), b.skip(i as int)),
                    decreases x.type_params@.len() - i,
                {
                    proof {
                        lemma_type_param_smaller(*self, i as int);
                        let rest = a.skip(i as int);
                        assert(rest.subrange(1, rest.len() as int) =~= a.skip(i + 1));
                        let rest = b.skip(i as int);
                        assert(rest.subrange(1, rest.len() as int) =~= b.skip(i + 1));
                    }
                    match x.type_params[i].compare(&y.type_params[i]) {
                        Order::Equal => {},
                        order => {
                            return order;
                        },
                    }
                    i = i + 1;
                }
                if x.type_params.len() < y.type_params.len() {
                    Order::Less
                } else if x.type_params.len() == y.type_params.len() {
                    Order::Equal
                } else {
                    Order::Greater
                }
            },
            _ => {
                let a: u8 = self.constructor();
                let b: u8 = other.constructor();
                if a < b {
                    Order::Less
                } else if a == b {
                    Order::Equal
                } else {
                    Order::Greater
                }
            },
        }
    }
}

/// The canonical text of a type. Every address is written with all its digits, after `0x` where
/// `with_prefix` asks for it, and nothing is written between a comma and the next type argument.
pub open spec fn type_text(tree: TypeTree, with_prefix: bool) -> Seq<char>
    decreases tree,
{
    match tree {
        TypeTree::Bool => "bool"@,
        TypeTree::U8 => "u8"@,
        TypeTree::U64 => "u64"@,
        TypeTree::U128 => "u128"@,
        TypeTree::Address => "address"@,
        TypeTree::Signer => "signer"@,
        TypeTree::Vector(element) => "vector<"@ + type_text(*element, with_prefix) + ">"@,
        TypeTree::Struct(tag) => {
            let address = if with_prefix {
                address_text(tag.address)
            } else {
                hex_text(tag.address)
            };
            let path = address + "::"@ + tag.module + "::"@ + tag.name;
            if tag.type_params.len() == 0 {
                path
            } else {
                path + "<"@ + types_text(tag.type_params, with_prefix) + ">"@
            }
        },
        TypeTree::U16 => "u16"@,
        TypeTree::U32 => "u32"@,
        TypeTree::U256 => "u256"@,
    }
}

/// The canonical texts of several types, with commas between them.
pub open spec fn types_text(trees: Seq<TypeTree>, with_prefix: bool) -> Seq<char>
    decreases trees,
{
    if trees.len() == 0 {
        Seq::empty()
    } else if trees.len() == 1 {
        type_text(trees[0], with_prefix)
    } else {
        types_text(trees.subrange(0, trees.len() - 1), with_prefix) + ","@ + type_text(
            trees[trees.len() - 1],
            with_prefix,
        )
    }
}

impl TypeTag {
    /// The canonical text of the type.
    pub fn to_canonical_string(&self, with_prefix: bool) -> (text: String)
        ensures
            text@ == type_text(self@, with_prefix),
    {
        let mut text: String = String::new();
        self.push_canonical(&mut text, with_prefix);
        assert(text@ =~= type_text(self@, with_prefix));
        text
    }

    fn push_canonical(&self, out: &mut String, with_prefix: bool)
        ensures
            final(out)@ == old(out)@ + type_text(self@, with_prefix),
        decreases self,
    {
        match self {
            TypeTag::Bool => out.append("bool"),
            TypeTag::U8 => out.append("u8"),
            TypeTag::U64 => out.append("u64"),
            TypeTag::U128 => out.append("u128"),
            TypeTag::Address => out.append("address"),
            TypeTag::Signer => out.append("signer"),
            TypeTag::Vector(element) => {
                out.append("vector<");
                (**element).push_canonical(out, with_prefix);
                out.append(">");
                assert(out@ =~= old(out)@ + type_text(self@, with_prefix));
            },
            TypeTag::Struct(tag) => {
                if with_prefix {
                    out.append(tag.address.to_string().as_str());
                } else {
                    out.append(tag.address.to_hex().as_str());
                }
                out.append("::");
                out.append(tag.module.as_str());
                out.append("::");
                out.append(tag.name.as_str());
                let ghost address = if with_prefix {
                    address_text(tag@.address)
                } else {
                    hex_text(tag@.address)
                };
                let ghost path = address + "::"@ + tag@.module + "::"@ + tag@.name;
                assert(out@ =~= old(out)@ + path);
                if tag.type_params.len() > 0 {
                    out.append("<");
                    let ghost front = out@;
                    let ghost trees = tag@.type_params;
                    let mut i: usize = 0;
                    assert(types_text(trees.take(0), with_prefix) =~= Seq::empty());
                    while i < tag.type_params.len()
                        invariant
                            *self == TypeTag::Struct(*tag),
                            trees == tag@.type_params,
                            i <= tag.type_params@.len(),
                            out@ == front + types_text(trees.take(i as int), with_prefix),
                        decreases tag.type_params@.len() - i,
                    {
                        proof {
                            lemma_type_param_smaller(*self, i as int);
                            let longer = trees.take(i + 1);
                            assert(longer.subrange(0, longer.len() - 1) =~= trees.take(i as int));
                        }
                        if i > 0 {
                            out.append(",");
                        }
                        tag.type_params[i].push_canonical(out, with_prefix);
                        i = i + 1;
                    }
                    assert(trees.take(i as int) =~= trees);
                    out.append(">");
                }
                assert(out@ =~= old(out)@ + type_text(self@, with_prefix));
            },
            TypeTag::U16 => out.append("u16"),
            TypeTag::U32 => out.append("u32"),
            TypeTag::U256 => out.append("u256"),
        }
    }
}

/// A name of a module or of a type: up to 128 letters, digits and underscores, of which the first is
/// no digit and the only one no underscore.
pub open spec fn is_identifier(name: Seq<char>) -> bool {
    &&& 1 <= name.len() <= MAX_IDENTIFIER_LENGTH
    &&& is_letter(name[0]) || (name[0] == '_' && name.len() >= 2)
    &&& forall|i: int|
        0 <= i < name.len() ==> is_letter(#[trigger] name[i]) || '0' <= name[i] <= '9' || name[i]
            == '_'
}

/// A letter of the English alphabet.
pub open spec fn is_letter(c: char) -> bool {
    'a' <= c <= 'z' || 'A' <= c <= 'Z'
}

/// The most characters of a name.
pub const MAX_IDENTIFIER_LENGTH: u32 = 128;

/// The most levels of types in one another that are read.
pub const MAX_TYPE_DEPTH: u32 = 128;

/// The most types that are read in one type, itself among them.
pub const MAX_TYPE_NODES: u32 = 256;

/// A type of at most so many levels, whose addresses have 32 bytes and whose names are identifiers.
pub open spec fn proper_within(tree: TypeTree, levels: int) -> bool
    decreases tree,
{
    &&& levels > 0
    &&& match tree {
        TypeTree::Vector(element) => proper_within(*element, levels - 1),
        TypeTree::Struct(tag) => {
            &&& tag.address.len() == 32
            &&& is_identifier(tag.module)
            &&& is_identifier(tag.name)
            &&& forall|i: int|
                0 <= i < tag.type_params.len() ==> proper_within(
                    #[trigger] tag.type_params[i],
                    levels - 1,
                )
        },
        _ => true,
    }
}

/// The number of types in a type, itself among them.
pub open spec fn type_nodes(tree: TypeTree) -> nat
    decreases tree,
{
    match tree {
        TypeTree::Vector(element) => 1 + type_nodes(*element),
        TypeTree::Struct(tag) => 1 + types_nodes(tag.type_params),
        _ => 1,
    }
}

/// The number of types in several types.
pub open spec fn types_nodes(trees: Seq<TypeTree>) -> nat
    decreases trees,
{
    if trees.len() == 0 {
        0
    } else {
        type_nodes(trees[0]) + types_nodes(trees.subrange(1, trees.len() as int))
    }
}

/// A type that can be read from its canonical text: a proper one that is not too deep or too large.
pub open spec fn readable(tree: TypeTree) -> bool {
    proper_within(tree, MAX_TYPE_DEPTH as int) && type_nodes(tree) <= MAX_TYPE_NODES
}

/// What a text reads as is readable, and the canonical text of a readable type reads as that type.
pub open spec fn reads_back(text: Seq<char>, parsed: Option<TypeTree>) -> bool {
    &&& parsed matches Some(tree) ==> readable(tree)
    &&& forall|tree: TypeTree|
        readable(tree) && text == #[trigger] type_text(tree, true) ==> parsed == Some(tree)
}

/// The canonical text of a type is not empty.
pub proof fn lemma_type_text_not_empty(tree: TypeTree)
    ensures
        type_text(tree, true).len() > 0,
{
    reveal_strlit("bool");
    reveal_strlit("u8");
    reveal_strlit("u16");
    reveal_strlit("u32");
    reveal_strlit("u64");
    reveal_strlit("u128");
    reveal_strlit("u256");
    reveal_strlit("address");
    reveal_strlit("signer");
    reveal_strlit("vector<");
}

/// The canonical text of a proper type has no white space.
pub proof fn lemma_type_text_spaceless(tree: TypeTree, levels: int)
    requires
        proper_within(tree, levels),
    ensures
        spaceless(type_text(tree, true)),
    decreases tree,
{
    reveal_strlit("bool");
    reveal_strlit("u8");
    reveal_strlit("u16");
    reveal_strlit("u32");
    reveal_strlit("u64");
    reveal_strlit("u128");
    reveal_strlit("u256");
    reveal_strlit("address");
    reveal_strlit("signer");
    reveal_strlit("vector<");
    reveal_strlit("::");
    reveal_strlit("<");
    reveal_strlit(">");
    match tree {
        TypeTree::Vector(element) => {
            lemma_type_text_spaceless(*element, levels - 1);
            lemma_spaceless_together("vector<"@, type_text(*element, true));
            lemma_spaceless_together("vector<"@ + type_text(*element, true), ">"@);
        },
        TypeTree::Struct(tag) => {
            let address = address_text(tag.address);
            let module = address + "::"@;
            let name = module + tag.module + "::"@;
            let path = name + tag.name;
            assert(spaceless(address));
            lemma_spaceless_together(address, "::"@);
            lemma_spaceless_together(module, tag.module);
            lemma_spaceless_together(module + tag.module, "::"@);
            lemma_spaceless_together(name, tag.name);
            if tag.type_params.len() > 0 {
                let params = types_text(tag.type_params, true);
                lemma_types_text_spaceless(tag.type_params, levels - 1);
                lemma_spaceless_together(path, "<"@);
                lemma_spaceless_together(path + "<"@, params);
                lemma_spaceless_together(path + "<"@ + params, ">"@);
            }
        },
        _ => {},
    }
}

proof fn lemma_types_text_spaceless(trees: Seq<TypeTree>, levels: int)
    requires
        forall|i: int| 0 <= i < trees.len() ==> proper_within(#[trigger] trees[i], levels),
    ensures
        spaceless(types_text(trees, true)),
    decreases trees,
{
    reveal_strlit(",");
    if trees.len() > 0 {
        let last = trees[trees.len() - 1];
        lemma_type_text_spaceless(last, levels);
        if trees.len() > 1 {
            let front = trees.subrange(0, trees.len() - 1);
            lemma_types_text_spaceless(front, levels);
            lemma_spaceless_together(types_text(front, true), ","@);
            lemma_spaceless_together(types_text(front, true) + ","@, type_text(last, true));
        }
    }
}

/// `sui_sdk_types::StructTag`, a struct type as it is parsed.
#[verifier::external_type_specification]
#[verifier::external_body]
pub struct ExSdkStructTag(SdkStructTag);

/// `sui_sdk_types::TypeTag`, a type as it is parsed, with its variants.
#[verifier::external_type_specification]
pub struct ExSdkTypeTag(SdkTypeTag);

/// What a parsed struct type holds.
pub uninterp spec fn struct_tree(tag: SdkStructTag) -> StructTree;

/// The tree of a parsed type.
pub open spec fn sdk_tree(tag: SdkTypeTag) -> TypeTree
    decreases tag,
{
    match tag {
        SdkTypeTag::Bool => TypeTree::Bool,
        SdkTypeTag::U8 => TypeTree::U8,
        SdkTypeTag::U16 => TypeTree::U16,
        SdkTypeTag::U32 => TypeTree::U32,
        SdkTypeTag::U64 => TypeTree::U64,
        SdkTypeTag::U128 => TypeTree::U128,
        SdkTypeTag::U256 => TypeTree::U256,
        SdkTypeTag::Address => TypeTree::Address,
        SdkTypeTag::Signer => TypeTree::Signer,
        SdkTypeTag::Vector(element) => TypeTree::Vector(Box::new(sdk_tree(*element))),
        SdkTypeTag::Struct(tag) => TypeTree::Struct(struct_tree(*tag)),
    }
}

/// The trees of parsed types.
pub open spec fn sdk_trees(tags: Seq<SdkTypeTag>) -> Seq<TypeTree> {
    tags.map_values(|tag: SdkTypeTag| sdk_tree(tag))
}

/// `sui_sdk_types::StructTag::address` gives the address of the struct type, here as its 32 bytes.
#[verifier::external_body]
fn struct_address(tag: &SdkStructTag) -> (bytes: [u8; 32])
    ensures
        bytes@ == struct_tree(*tag).address,
{
    tag.address().into_inner()
}

/// `sui_sdk_types::StructTag::module` gives the module of the struct type, here as its characters.
#[verifier::external_body]
fn struct_module(tag: &SdkStructTag) -> (name: String)
    ensures
        name@ == struct_tree(*tag).module,
{
    tag.module().as_str().to_owned()
}

/// `sui_sdk_types::StructTag::name` gives the name of the struct type, here as its characters.
#[verifier::external_body]
fn struct_name(tag: &SdkStructTag) -> (name: String)
    ensures
        name@ == struct_tree(*tag).name,
{
    tag.name().as_str().to_owned()
}

/// `sui_sdk_types::StructTag::type_params` gives the type arguments of the struct type, in order.
pub assume_specification[ SdkStructTag::type_params ](tag: &SdkStructTag) -> (params: &[SdkTypeTag])
    ensures
        sdk_trees(params@) == struct_tree(*tag).type_params,
;

/// The type that the parser reads from `text`, if any.
pub uninterp spec fn parsed_type(text: Seq<char>) -> Option<TypeTree>;

/// `<sui_sdk_types::TypeTag as FromStr>::from_str` reads a type from `text`. What it reads depends
/// on the text alone, and the grammar is not restated. Two things of it are. It reads only types
/// with 32-byte addresses and identifiers as names, of at most 128 levels and 256 types, and so
/// recurses no deeper. And it reads each such type from its canonical text.
#[verifier::external_body]
fn parse_sdk_type(text: &str) -> (tag: Option<SdkTypeTag>)
    ensures
        match tag {
            Some(t) => parsed_type(text@) == Some(sdk_tree(t)) && readable(sdk_tree(t)),
            None => parsed_type(text@) is None,
        },
        forall|tree: TypeTree|
            readable(tree) && text@ == #[trigger] type_text(tree, true) ==> tag is Some && sdk_tree(
                tag->0,
            ) == tree,
{
    text.parse::<SdkTypeTag>().ok()
}

/// The type that is read from `text`, if any: white space between its words and marks does not
/// matter.
pub open spec fn read_type(text: Seq<char>) -> Option<TypeTree> {
    parsed_type(compact(text))
}

/// The same type, with plain parts.
fn from_sdk(parsed: &SdkTypeTag) -> (tag: TypeTag)
    ensures
        tag@ == sdk_tree(*parsed),
    decreases sdk_tree(*parsed),
{
    match parsed {
        SdkTypeTag::Bool => TypeTag::Bool,
        SdkTypeTag::U8 => TypeTag::U8,
        SdkTypeTag::U16 => TypeTag::U16,
        SdkTypeTag::U32 => TypeTag::U32,
        SdkTypeTag::U64 => TypeTag::U64,
        SdkTypeTag::U128 => TypeTag::U128,
        SdkTypeTag::U256 => TypeTag::U256,
        SdkTypeTag::Address => TypeTag::Address,
        SdkTypeTag::Signer => TypeTag::Signer,
        SdkTypeTag::Vector(element) => {
            assert(decreases_to!(sdk_tree(*parsed) => sdk_tree(*parsed)->Vector_0));
            TypeTag::Vector(Box::new(from_sdk(&**element)))
        },
        SdkTypeTag::Struct(tag) => {
            let params: &[SdkTypeTag] = tag.type_params();
            let ghost trees = struct_tree(**tag).type_params;
            let mut type_params: Vec<TypeTag> = Vec::new();
            let mut i: usize = 0;
            while i < params.len()
                invariant
                    *parsed == SdkTypeTag::Struct(*tag),
                    trees == struct_tree(**tag).type_params,
                    trees == sdk_trees(params@),
                    i <= params@.len(),
                    type_params@.len() == i,
                    forall|j: int| 0 <= j < i ==> (#[trigger] type_params@[j])@ == trees[j],
                decreases params@.len() - i,
            {
                proof {
                    lemma_tree_param_smaller(sdk_tree(*parsed), i as int);
                }
                type_params.push(from_sdk(&params[i]));
                i = i + 1;
            }
            let plain: StructTag = StructTag {
                address: SuiAddress { bytes: struct_address(&**tag) },
                module: struct_module(&**tag),
                name: struct_name(&**tag),
                type_params,
            };
            assert(plain@.type_params =~= trees);
            TypeTag::Struct(Box::new(plain))
        },
    }
}

/// A type argument is smaller than the tree it stands in.
proof fn lemma_tree_param_smaller(tree: TypeTree, i: int)
    requires
        tree is Struct,
        0 <= i < tree->Struct_0.type_params.len(),
    ensures
        decreases_to!(tree => tree->Struct_0.type_params[i]),
{
    let tag = tree->Struct_0;
    assert(decreases_to!(tree => tree->Struct_0));
    assert(decreases_to!(tag => tag.type_params));
    assert(decreases_to!(tag.type_params => tag.type_params[i]));
}

impl TypeTag {
    /// Reads a type from its text.
    pub fn parse(text: &str) -> (tag: Option<TypeTag>)
        ensures
            match tag {
                Some(t) => read_type(text@) == Some(t@),
                None => read_type(text@) is None,
            },
            reads_back(text@, read_type(text@)),
    {
        let compact_text: String = compacted(text);
        proof {
            assert forall|tree: TypeTree|
                readable(tree) && text@ == #[trigger] type_text(tree, true) implies compact(text@)
                == text@ by {
                lemma_type_text_spaceless(tree, MAX_TYPE_DEPTH as int);
                law_spaceless_is_compact(text@);
            }
        }
        match parse_sdk_type(compact_text.as_str()) {
            Some(parsed) => Some(from_sdk(&parsed)),
            None => None,
        }
    }
}

/// Types of different kinds come in this order: `bool`, `u8`, `u64`, `u128`, `address`, `signer`,
/// vectors, structs, `u16`, `u32`, `u256`. Vectors come in the order of their elements.
pub proof fn law_type_order_of_kinds(x: TypeTree, y: TypeTree, tag: StructTree)
    ensures
        type_order(TypeTree::Bool, TypeTree::U8) is Less,
        type_order(TypeTree::U8, TypeTree::U64) is Less,
        type_order(TypeTree::U64, TypeTree::U128) is Less,
        type_order(TypeTree::U128, TypeTree::Address) is Less,
        type_order(TypeTree::Address, TypeTree::Signer) is Less,
        type_order(TypeTree::Signer, TypeTree::Vector(Box::new(x))) is Less,
        type_order(TypeTree::Vector(Box::new(x)), TypeTree::Struct(tag)) is Less,
        type_order(TypeTree::Struct(tag), TypeTree::U16) is Less,
        type_order(TypeTree::U16, TypeTree::U32) is Less,
        type_order(TypeTree::U32, TypeTree::U256) is Less,
        type_order(TypeTree::Vector(Box::new(x)), TypeTree::Vector(Box::new(y))) == type_order(x, y),
{
}

/// Where type arguments first differ, they decide. Arguments that end there come first.
proof fn lemma_types_first_difference(a: Seq<TypeTree>, b: Seq<TypeTree>, k: int)
    requires
        agree_before(a, b, k),
    ensures
        k < a.len() && k < b.len() && type_order(a[k], b[k]) is Less ==> types_order(a, b) is Less,
        k == a.len() < b.len() ==> types_order(a, b) is Less,
    decreases k,
{
    if k > 0 {
        let a_rest = a.subrange(1, a.len() as int);
        let b_rest = b.subrange(1, b.len() as int);
        assert forall|i: int| 0 <= i < k - 1 implies #[trigger] a_rest[i] == b_rest[i] by {
            assert(a[i + 1] == b[i + 1]);
        }
        lemma_types_first_difference(a_rest, b_rest, k - 1);
        assert(a[0] == b[0]);
        law_type_order(a[0], b[0]);
    }
}

/// Struct types are ordered by the first byte in which their addresses differ, whatever the rest;
/// with one address, by the first character in which their modules differ; then by that of their
/// names; and then by the first type argument in which they differ. What ends first comes first.
pub proof fn law_struct_order(a: StructTree, b: StructTree, k: int)
    ensures
        ({
            let order = type_order(TypeTree::Struct(a), TypeTree::Struct(b));
            let reverse = type_order(TypeTree::Struct(b), TypeTree::Struct(a));
            let less = order is Less && reverse is Greater;
            &&& agree_before(a.address, b.address, k) && k < a.address.len() && k < b.address.len()
                && a.address[k] < b.address[k] ==> less
            &&& a.address == b.address && agree_before(a.module, b.module, k) && (if k
                == a.module.len() {
                k < b.module.len()
            } else {
                k < b.module.len() && (a.module[k] as int) < b.module[k] as int
            }) ==> less
            &&& a.address == b.address && a.module == b.module && agree_before(a.name, b.name, k)
                && (if k == a.name.len() {
                k < b.name.len()
            } else {
                k < b.name.len() && (a.name[k] as int) < b.name[k] as int
            }) ==> less
            &&& a.address == b.address && a.module == b.module && a.name == b.name && agree_before(
                a.type_params,
                b.type_params,
                k,
            ) && (if k == a.type_params.len() {
                k < b.type_params.len()
            } else {
                k < b.type_params.len() && type_order(a.type_params[k], b.type_params[k]) is Less
            }) ==> less
        }),
{
    law_type_order(TypeTree::Struct(a), TypeTree::Struct(b));
    assert(type_order(TypeTree::Struct(a), TypeTree::Struct(b)) == struct_order(a, b));
    lemma_bytes_order(a.address, b.address);
    lemma_text_order(a.module, b.module);
    lemma_text_order(a.name, b.name);
    if agree_before(a.address, b.address, k) {
        law_bytes_order(a.address, b.address, k);
    }
    if agree_before(a.module, b.module, k) {
        law_text_order(a.module, b.module, k);
    }
    if agree_before(a.name, b.name, k) {
        law_text_order(a.name, b.name, k);
    }
    if agree_before(a.type_params, b.type_params, k) {
        lemma_types_first_difference(a.type_params, b.type_params, k);
    }
}

/// The canonical texts of the types that hold no others, and of a vector around that of its element.
pub proof fn law_canonical_text_of_kinds(element: TypeTree, with_prefix: bool)
    ensures
        type_text(TypeTree::Bool, with_prefix) == seq!['b', 'o', 'o', 'l'],
        type_text(TypeTree::U8, with_prefix) == seq!['u', '8'],
        type_text(TypeTree::U16, with_prefix) == seq!['u', '1', '6'],
        type_text(TypeTree::U32, with_prefix) == seq!['u', '3', '2'],
        type_text(TypeTree::U64, with_prefix) == seq!['u', '6', '4'],
        type_text(TypeTree::U128, with_prefix) == seq!['u', '1', '2', '8'],
        type_text(TypeTree::U256, with_prefix) == seq!['u', '2', '5', '6'],
        type_text(TypeTree::Address, with_prefix) == seq!['a', 'd', 'd', 'r', 'e', 's', 's'],
        type_text(TypeTree::Signer, with_prefix) == seq!['s', 'i', 'g', 'n', 'e', 'r'],
        type_text(TypeTree::Vector(Box::new(element)), with_prefix) == seq![
            'v',
            'e',
            'c',
            't',
            'o',
            'r',
            '<',
        ] + type_text(element, with_prefix) + seq!['>'],
{
    reveal_strlit("bool");
    reveal_strlit("u8");
    reveal_strlit("u16");
    reveal_strlit("u32");
    reveal_strlit("u64");
    reveal_strlit("u128");
    reveal_strlit("u256");
    reveal_strlit("address");
    reveal_strlit("signer");
    reveal_strlit("vector<");
    reveal_strlit(">");
    assert("vector<"@ =~= seq!['v', 'e', 'c', 't', 'o', 'r', '<']);
    assert(">"@ =~= seq!['>']);
}

/// How many characters the canonical texts of types take, with one more after each.
pub open spec fn texts_width(trees: Seq<TypeTree>, with_prefix: bool) -> nat
    decreases trees.len(),
{
    if trees.len() == 0 {
        0
    } else {
        texts_width(trees.drop_last(), with_prefix) + type_text(trees.last(), with_prefix).len() + 1
    }
}

/// How many characters the canonical text of a struct type takes before its arguments.
pub open spec fn path_width(tag: StructTree, with_prefix: bool) -> int {
    (if with_prefix {
        2int
    } else {
        0
    }) + 2 * tag.address.len() + 2 + tag.module.len() + 2 + tag.name.len()
}

/// The canonical text of a struct type begins with its address, where `with_prefix` asks for it after
/// `0x`, its module and its name, with two colons between them. Without arguments it ends there.
#[verifier::rlimit(40)]
#[verifier::spinoff_prover]
pub proof fn law_canonical_path(tag: StructTree, with_prefix: bool)
    ensures
        ({
            let text = type_text(TypeTree::Struct(tag), with_prefix);
            let digits = if with_prefix {
                2int
            } else {
                0
            };
            let module = digits + 2 * tag.address.len() + 2;
            let name = module + tag.module.len() + 2;
            &&& text.len() >= path_width(tag, with_prefix)
            &&& tag.type_params.len() == 0 ==> text.len() == path_width(tag, with_prefix)
            &&& with_prefix ==> text[0] == '0' && text[1] == 'x'
            &&& text.subrange(digits, module - 2) == hex_text(tag.address)
            &&& text[module - 2] == ':'
            &&& text[module - 1] == ':'
            &&& text.subrange(module, name - 2) == tag.module
            &&& text[name - 2] == ':'
            &&& text[name - 1] == ':'
            &&& text.subrange(name, name + tag.name.len()) == tag.name
        }),
{
    let text = type_text(TypeTree::Struct(tag), with_prefix);
    let (address, rest) = lemma_struct_text_parts(tag, with_prefix);
    let digits = if with_prefix {
        2int
    } else {
        0
    };
    lemma_path_places(address, tag.module, tag.name, rest, text, digits);
}

/// The text of a struct type, as what writes its address and what follows its name.
#[verifier::rlimit(40)]
#[verifier::spinoff_prover]
proof fn lemma_struct_text_parts(tag: StructTree, with_prefix: bool) -> (parts: (
    Seq<char>,
    Seq<char>,
))
    ensures
        type_text(TypeTree::Struct(tag), with_prefix) == parts.0 + "::"@ + tag.module + "::"@
            + tag.name + parts.1,
        parts.0.len() == 2 * tag.address.len() + if with_prefix {
            2int
        } else {
            0
        },
        with_prefix ==> parts.0[0] == '0' && parts.0[1] == 'x' && parts.0.skip(2) == hex_text(
            tag.address,
        ),
        !with_prefix ==> parts.0.skip(0) == hex_text(tag.address),
        tag.type_params.len() == 0 ==> parts.1 == Seq::<char>::empty(),
        tag.type_params.len() > 0 ==> parts.1 == "<"@ + types_text(tag.type_params, with_prefix)
            + ">"@,
{
    let address = if with_prefix {
        address_text(tag.address)
    } else {
        hex_text(tag.address)
    };
    let arguments = types_text(tag.type_params, with_prefix);
    let path = address + "::"@ + tag.module + "::"@ + tag.name;
    let rest = if tag.type_params.len() == 0 {
        Seq::empty()
    } else {
        "<"@ + arguments + ">"@
    };
    if with_prefix {
        assert(address.skip(2) =~= hex_text(tag.address));
    } else {
        assert(address.skip(0) =~= address);
    }
    if tag.type_params.len() == 0 {
        assert(path + rest =~= path);
    } else {
        assert(path + rest =~= path + "<"@ + arguments + ">"@);
    }
    (address, rest)
}

/// Where the parts of a path stand.
proof fn lemma_path_places(
    address: Seq<char>,
    module: Seq<char>,
    name: Seq<char>,
    rest: Seq<char>,
    text: Seq<char>,
    digits: int,
)
    requires
        text == address + "::"@ + module + "::"@ + name + rest,
        0 <= digits <= address.len(),
    ensures
        ({
            let module_at = address.len() as int + 2;
            let name_at = module_at + module.len() + 2;
            &&& text.len() == name_at + name.len() + rest.len()
            &&& forall|i: int| 0 <= i < address.len() ==> text[i] == #[trigger] address[i]
            &&& text.subrange(digits, module_at - 2) == address.skip(digits)
            &&& text[module_at - 2] == ':'
            &&& text[module_at - 1] == ':'
            &&& text.subrange(module_at, name_at - 2) == module
            &&& text[name_at - 2] == ':'
            &&& text[name_at - 1] == ':'
            &&& text.subrange(name_at, name_at + name.len()) == name
            &&& text.skip(name_at + name.len()) == rest
        }),
{
    reveal_strlit("::");
    let module_at = address.len() as int + 2;
    let name_at = module_at + module.len() + 2;
    assert(text.subrange(digits, module_at - 2) =~= address.skip(digits));
    assert(text.subrange(module_at, name_at - 2) =~= module);
    assert(text.subrange(name_at, name_at + name.len()) =~= name);
    assert(text.skip(name_at + name.len()) =~= rest);
}

/// Where the arguments stand in their joint text.
#[verifier::rlimit(40)]
#[verifier::spinoff_prover]
proof fn lemma_types_text_places(trees: Seq<TypeTree>, with_prefix: bool, i: int)
    requires
        0 <= i < trees.len(),
    ensures
        ({
            let text = types_text(trees, with_prefix);
            let argument = type_text(trees[i], with_prefix);
            let at = texts_width(trees.take(i), with_prefix) as int;
            &&& text.len() + 1 == texts_width(trees, with_prefix)
            &&& at + argument.len() <= text.len()
            &&& text.subrange(at, at + argument.len()) == argument
            &&& i > 0 ==> at > 0 && text[at - 1] == ','
            &&& i == 0 ==> at == 0
            &&& i < trees.len() - 1 ==> at + argument.len() < text.len() && text[at
                + argument.len()] == ','
            &&& i == trees.len() - 1 ==> at + argument.len() == text.len()
        }),
    decreases trees.len(),
{
    reveal_strlit(",");
    let n = trees.len() as int;
    let front = trees.subrange(0, n - 1);
    let text = types_text(trees, with_prefix);
    let last = type_text(trees[n - 1], with_prefix);
    let argument = type_text(trees[i], with_prefix);
    let at = texts_width(trees.take(i), with_prefix) as int;
    assert(trees.drop_last() =~= front);
    assert(trees.take(n - 1) =~= front);
    if n == 1 {
        assert(trees.take(0) =~= Seq::empty());
        assert(front =~= Seq::empty());
        assert(text.subrange(0, text.len() as int) =~= text);
    } else {
        let before = types_text(front, with_prefix);
        lemma_types_text_places(front, with_prefix, n - 2);
        assert(text == before + ","@ + last);
        if i < n - 1 {
            lemma_types_text_places(front, with_prefix, i);
            assert(front.take(i) =~= trees.take(i));
            assert(front[i] == trees[i]);
            assert(text.subrange(at, at + argument.len()) =~= before.subrange(
                at,
                at + argument.len(),
            ));
        } else {
            assert(text.subrange(at, at + argument.len()) =~= last);
        }
    }
}

/// The canonical text of a struct type with arguments goes on after its path with `<`, the canonical
/// texts of the arguments, each in its place with a comma to the next, and ends with `>`.
#[verifier::rlimit(40)]
#[verifier::spinoff_prover]
pub proof fn law_canonical_arguments(tag: StructTree, with_prefix: bool, i: int)
    requires
        0 <= i < tag.type_params.len(),
    ensures
        ({
            let text = type_text(TypeTree::Struct(tag), with_prefix);
            let argument = type_text(tag.type_params[i], with_prefix);
            let at = path_width(tag, with_prefix) + 1 + texts_width(
                tag.type_params.take(i),
                with_prefix,
            );
            let end = at + argument.len();
            &&& text.len() == path_width(tag, with_prefix) + 1 + texts_width(
                tag.type_params,
                with_prefix,
            )
            &&& 0 < at <= end < text.len()
            &&& text.subrange(at, end) == argument
            &&& text[at - 1] == if i == 0 {
                '<'
            } else {
                ','
            }
            &&& text[end] == if i == tag.type_params.len() - 1 {
                '>'
            } else {
                ','
            }
            &&& i == tag.type_params.len() - 1 ==> end == text.len() - 1
        }),
{
    let text = type_text(TypeTree::Struct(tag), with_prefix);
    let argument = type_text(tag.type_params[i], with_prefix);
    let within = texts_width(tag.type_params.take(i), with_prefix) as int;
    let arguments = types_text(tag.type_params, with_prefix);
    let (address, rest) = lemma_struct_text_parts(tag, with_prefix);
    lemma_types_text_places(tag.type_params, with_prefix, i);
    lemma_path_places(address, tag.module, tag.name, rest, text, 0);
    lemma_in_brackets(text, path_width(tag, with_prefix), arguments, argument, within);
}

/// What stands in brackets after a path.
proof fn lemma_in_brackets(
    text: Seq<char>,
    path: int,
    arguments: Seq<char>,
    argument: Seq<char>,
    within: int,
)
    requires
        0 <= path <= text.len(),
        text.skip(path) == "<"@ + arguments + ">"@,
        0 <= within,
        within + argument.len() <= arguments.len(),
        arguments.subrange(within, within + argument.len()) == argument,
    ensures
        ({
            let at = path + 1 + within;
            let end = at + argument.len();
            &&& text.len() == path + arguments.len() + 2
            &&& text.subrange(at, end) == argument
            &&& text[at - 1] == if within == 0 {
                '<'
            } else {
                arguments[within - 1]
            }
            &&& text[end] == if within + argument.len() == arguments.len() {
                '>'
            } else {
                arguments[within + argument.len()]
            }
        }),
{
    reveal_strlit("<");
    reveal_strlit(">");
    let rest = text.skip(path);
    let at = path + 1 + within;
    let end = at + argument.len();
    assert(rest.len() == arguments.len() + 2);
    assert(rest[within] == text[at - 1]);
    assert(rest[1 + within + argument.len()] == text[end]);
    assert forall|i: int| 0 <= i < argument.len() implies text[at + i] == argument[i] by {
        assert(rest[1 + within + i] == text[at + i]);
        assert(arguments.subrange(within, within + argument.len())[i] == arguments[within + i]);
    }
    assert(text.subrange(at, end) =~= argument);
}

/// What is read of a text is what the parser reads of it without the white space that does not
/// matter, so texts that differ in nothing else read alike.
pub proof fn law_type_is_read(a: Seq<char>, b: Seq<char>)
    ensures
        read_type(a) == parsed_type(compact(a)),
        spaceless(a) ==> read_type(a) == parsed_type(a),
        compact(a) == compact(b) ==> read_type(a) == read_type(b),
{
    if spaceless(a) {
        law_spaceless_is_compact(a);
    }
}

/// A parsed type keeps its kind, and what it holds.
pub proof fn law_parsed_type_is_kept(element: SdkTypeTag, tag: SdkStructTag)
    ensures
        sdk_tree(SdkTypeTag::Bool) == TypeTree::Bool,
        sdk_tree(SdkTypeTag::U8) == TypeTree::U8,
        sdk_tree(SdkTypeTag::U16) == TypeTree::U16,
        sdk_tree(SdkTypeTag::U32) == TypeTree::U32,
        sdk_tree(SdkTypeTag::U64) == TypeTree::U64,
        sdk_tree(SdkTypeTag::U128) == TypeTree::U128,
        sdk_tree(SdkTypeTag::U256) == TypeTree::U256,
        sdk_tree(SdkTypeTag::Address) == TypeTree::Address,
        sdk_tree(SdkTypeTag::Signer) == TypeTree::Signer,
        sdk_tree(SdkTypeTag::Vector(Box::new(element))) == TypeTree::Vector(
            Box::new(sdk_tree(element)),
        ),
        sdk_tree(SdkTypeTag::Struct(Box::new(tag))) == TypeTree::Struct(struct_tree(tag)),
{
}

/// Types show their kind, and what they hold, in order.
pub proof fn law_types_show_their_parts(element: TypeTag, tag: StructTag, i: int)
    ensures
        TypeTag::Bool@ == TypeTree::Bool,
        TypeTag::U8@ == TypeTree::U8,
        TypeTag::U16@ == TypeTree::U16,
        TypeTag::U32@ == TypeTree::U32,
        TypeTag::U64@ == TypeTree::U64,
        TypeTag::U128@ == TypeTree::U128,
        TypeTag::U256@ == TypeTree::U256,
        TypeTag::Address@ == TypeTree::Address,
        TypeTag::Signer@ == TypeTree::Signer,
        TypeTag::Vector(Box::new(element))@ == TypeTree::Vector(Box::new(element@)),
        TypeTag::Struct(Box::new(tag))@ == TypeTree::Struct(tag@),
        element@ == element.tree(),
        tag@.address == tag.address.bytes@,
        tag@.module == tag.module@,
        tag@.name == tag.name@,
        tag@.type_params.len() == tag.type_params@.len(),
        0 <= i < tag.type_params@.len() ==> tag@.type_params[i] == tag.type_params@[i]@,
{
}

/// A name of between 1 and 128 letters, digits and underscores is an identifier where it begins with
/// a letter, or with an underscore that is not all of it. No other name is.
pub proof fn law_identifier(name: Seq<char>)
    ensures
        is_identifier(name) <==> {
            &&& 1 <= name.len() <= 128
            &&& !('0' <= name[0] <= '9')
            &&& !(name.len() == 1 && name[0] == '_')
            &&& forall|i: int|
                0 <= i < name.len() ==> 'a' <= #[trigger] name[i] <= 'z' || 'A' <= name[i] <= 'Z'
                    || '0' <= name[i] <= '9' || name[i] == '_'
        },
{
}

/// The number of types in type arguments, without the last of them.
proof fn lemma_types_nodes_last(trees: Seq<TypeTree>)
    requires
        trees.len() > 0,
    ensures
        types_nodes(trees) == types_nodes(trees.drop_last()) + type_nodes(trees.last()),
    decreases trees.len(),
{
    let rest = trees.subrange(1, trees.len() as int);
    if trees.len() > 1 {
        lemma_types_nodes_last(rest);
        assert(trees.drop_last().subrange(1, trees.len() - 1) =~= rest.drop_last());
    } else {
        assert(rest =~= Seq::empty());
        assert(trees.drop_last() =~= Seq::empty());
        assert(types_nodes(Seq::empty()) == 0);
    }
}

/// How many levels and types a type has, one level at a time: itself, and what it holds.
pub proof fn law_readable_by_level(element: TypeTree, tag: StructTree, levels: int)
    ensures
        readable(element) <==> proper_within(element, 128) && type_nodes(element) <= 256,
        !(element is Vector) && !(element is Struct) ==> (proper_within(element, levels) <==> levels
            >= 1) && type_nodes(element) == 1,
        proper_within(TypeTree::Vector(Box::new(element)), levels + 1) <==> levels >= 0
            && proper_within(element, levels),
        type_nodes(TypeTree::Vector(Box::new(element))) == 1 + type_nodes(element),
        proper_within(TypeTree::Struct(tag), levels + 1) <==> {
            &&& levels >= 0
            &&& tag.address.len() == 32
            &&& is_identifier(tag.module)
            &&& is_identifier(tag.name)
            &&& forall|i: int|
                0 <= i < tag.type_params.len() ==> proper_within(
                    #[trigger] tag.type_params[i],
                    levels,
                )
        },
        tag.type_params.len() == 0 ==> type_nodes(TypeTree::Struct(tag)) == 1,
        tag.type_params.len() > 0 ==> type_nodes(TypeTree::Struct(tag)) == type_nodes(
            TypeTree::Struct(StructTree { type_params: tag.type_params.drop_last(), ..tag }),
        ) + type_nodes(tag.type_params.last()),
{
    assert(types_nodes(Seq::empty()) == 0);
    if tag.type_params.len() > 0 {
        lemma_types_nodes_last(tag.type_params);
        let shorter = StructTree { type_params: tag.type_params.drop_last(), ..tag };
        assert(type_nodes(TypeTree::Struct(shorter)) == 1 + types_nodes(shorter.type_params));
        assert(type_nodes(TypeTree::Struct(tag)) == 1 + types_nodes(tag.type_params));
    } else {
        assert(tag.type_params =~= Seq::empty());
        assert(type_nodes(TypeTree::Struct(tag)) == 1 + types_nodes(tag.type_params));
    }
}

} // verus!
