//! The grammar model: fixed-text and regex-defined token declarations, and
//! the node/edge schema describing the shapes of syntax-tree nodes, with its
//! validation.

use vstd::prelude::*;

verus! {

/// A fixed-text token declaration: a keyword or punctuation token whose text
/// is matched literally.
pub struct ConstToken {
    pub name: String,
    pub lowercased_name: String,
    pub text: String,
}

/// A regex-defined token declaration; the pattern language is the one
/// interpreted by [`crate::lexer`].
pub struct Token {
    pub name: String,
    pub lowercased_name: String,
    pub regex: String,
}

/// The lexical grammar: fixed tokens first (matched with priority by
/// declaration order), then regex tokens (longest match wins, earlier
/// declaration breaks ties).
pub struct Grammar {
    pub const_tokens: Vec<ConstToken>,
    pub tokens: Vec<Token>,
}

/// How many child values a schema slot may hold.
pub enum Cardinality {
    Optional,
    Repeated,
    Required,
}

/// A named child slot of a schema node, referencing the node or token kind
/// that may fill it.
pub struct Slot {
    pub name: String,
    pub target: String,
    pub cardinality: Cardinality,
}

/// A syntax-node shape: its name and the child slots it may hold.
pub struct NodeDef {
    pub name: String,
    pub slots: Vec<Slot>,
}

/// The syntactic grammar: the set of node shapes.
pub struct Schema {
    pub nodes: Vec<NodeDef>,
}

/// A malformed schema: generation must stop on it rather than emit broken
/// definitions.
pub enum SchemaError {
    /// Two node shapes share one name.
    DuplicateNode { name: String },
    /// A slot references a name that is neither a node of the schema nor a
    /// declared token.
    UndefinedReference { node: String, slot: String, target: String },
}

/// Whether `name` is the name of one of the schema's nodes.
pub open spec fn schema_defines(nodes: Seq<NodeDef>, name: Seq<char>) -> bool {
    exists|i: int| 0 <= i < nodes.len() && nodes[i].name@ == name
}

/// Whether `name` is among the declared token names.
pub open spec fn token_defined(names: Seq<Seq<char>>, name: Seq<char>) -> bool {
    exists|i: int| 0 <= i < names.len() && names[i] == name
}

/// Whether all node names of the schema are distinct.
pub open spec fn unique_node_names(nodes: Seq<NodeDef>) -> bool {
    forall|i: int, j: int| 0 <= i < j < nodes.len() ==> nodes[i].name@ != nodes[j].name@
}

/// Whether every slot of every node references a defined node or token name.
pub open spec fn all_refs_defined(nodes: Seq<NodeDef>, token_names: Seq<Seq<char>>) -> bool {
    forall|i: int, k: int|
        0 <= i < nodes.len() && 0 <= k < nodes[i].slots@.len() ==> schema_defines(
            nodes,
            #[trigger] nodes[i].slots@[k].target@,
        ) || token_defined(token_names, nodes[i].slots@[k].target@)
}

/// A well-formed schema: unique node names, and every slot reference defined.
pub open spec fn schema_ok(nodes: Seq<NodeDef>, token_names: Seq<Seq<char>>) -> bool {
    unique_node_names(nodes) && all_refs_defined(nodes, token_names)
}

impl Schema {
    /// Validates the schema against the declared token names: succeeds exactly
    /// when every node name is unique and every slot references a node of the
    /// schema or a declared token. A duplicate name is reported before any
    /// undefined reference.
    pub fn validate(&self, token_names: &Vec<String>) -> (r: Result<(), SchemaError>)
        ensures
            r is Ok <==> schema_ok(self.nodes@, token_names@.map_values(|s: String| s@)),
            r matches Err(SchemaError::DuplicateNode { name }) ==> !unique_node_names(self.nodes@)
                && exists|i: int, j: int|
                0 <= i < j < self.nodes@.len() && self.nodes@[i].name@ == self.nodes@[j].name@
                    && name@ == self.nodes@[i].name@,
            r matches Err(SchemaError::UndefinedReference { node, slot, target }) ==> unique_node_names(
                self.nodes@,
            ) && exists|i: int, k: int|
                0 <= i < self.nodes@.len() && 0 <= k < self.nodes@[i].slots@.len()
                    && !schema_defines(self.nodes@, #[trigger] self.nodes@[i].slots@[k].target@)
                    && !token_defined(
                    token_names@.map_values(|s: String| s@),
                    self.nodes@[i].slots@[k].target@,
                ) && node@ == self.nodes@[i].name@ && slot@ == self.nodes@[i].slots@[k].name@
                    && target@ == self.nodes@[i].slots@[k].target@,
    {
        let ghost toks = token_names@.map_values(|s: String| s@);
        let n = self.nodes.len();
        let mut i: usize = 0;
        while i < n
            invariant
                n == self.nodes@.len(),
                0 <= i <= n,
                forall|p: int, q: int|
                    0 <= p < q < n && p < i ==> self.nodes@[p].name@ != self.nodes@[q].name@,
            decreases n - i,
        {
            let mut j: usize = i + 1;
            while j < n
                invariant
                    n == self.nodes@.len(),
                    i < n,
                    i + 1 <= j <= n,
                    forall|q: int| i < q < j ==> self.nodes@[i as int].name@ != self.nodes@[q].name@,
                decreases n - j,
            {
                if self.nodes[i].name == self.nodes[j].name {
                    return Err(SchemaError::DuplicateNode { name: self.nodes[i].name.clone() });
                }
                j = j + 1;
            }
            i = i + 1;
        }
        assert(unique_node_names(self.nodes@));
        let mut i: usize = 0;
        while i < n
            invariant
                n == self.nodes@.len(),
                toks == token_names@.map_values(|s: String| s@),
                unique_node_names(self.nodes@),
                0 <= i <= n,
                forall|p: int, k: int|
                    0 <= p < i && 0 <= k < self.nodes@[p].slots@.len() ==> schema_defines(
                        self.nodes@,
                        #[trigger] self.nodes@[p].slots@[k].target@,
                    ) || token_defined(toks, self.nodes@[p].slots@[k].target@),
            decreases n - i,
        {
            let m = self.nodes[i].slots.len();
            let mut k: usize = 0;
            while k < m
                invariant
                    n == self.nodes@.len(),
                    toks == token_names@.map_values(|s: String| s@),
                    unique_node_names(self.nodes@),
                    i < n,
                    m == self.nodes@[i as int].slots@.len(),
                    0 <= k <= m,
                    forall|q: int|
                        0 <= q < k ==> schema_defines(
                            self.nodes@,
                            #[trigger] self.nodes@[i as int].slots@[q].target@,
                        ) || token_defined(toks, self.nodes@[i as int].slots@[q].target@),
                decreases m - k,
            {
                let target = &self.nodes[i].slots[k].target;
                if !self.defines_name(target) && !name_listed(token_names, target) {
                    return Err(
                        SchemaError::UndefinedReference {
                            node: self.nodes[i].name.clone(),
                            slot: self.nodes[i].slots[k].name.clone(),
                            target: target.clone(),
                        },
                    );
                }
                k = k + 1;
            }
            i = i + 1;
        }
        Ok(())
    }

    /// Whether some node of the schema carries the given name.
    pub fn defines_name(&self, name: &String) -> (r: bool)
        ensures
            r == schema_defines(self.nodes@, name@),
    {
        let n = self.nodes.len();
        let mut i: usize = 0;
        while i < n
            invariant
                n == self.nodes@.len(),
                0 <= i <= n,
                forall|p: int| 0 <= p < i ==> self.nodes@[p].name@ != name@,
            decreases n - i,
        {
            if self.nodes[i].name.eq(name) {
                return true;
            }
            i = i + 1;
        }
        false
    }
}

/// The upper-snake-case wire name of every token of the grammar, fixed
/// tokens first, in declaration order: the names carried by the generated
/// syntax-kind enumeration, parallel to the kind tags the lexer table
/// assigns.
pub fn kind_wire_names(g: &Grammar) -> (r: Vec<String>)
    ensures
        r@.len() == g.const_tokens@.len() + g.tokens@.len(),
        forall|i: int|
            0 <= i < g.const_tokens@.len() ==> #[trigger] r@[i]@ == crate::names::upper_snake(
                g.const_tokens@[i].name@,
            ),
        forall|j: int|
            0 <= j < g.tokens@.len() ==> #[trigger] r@[g.const_tokens@.len() + j]@
                == crate::names::upper_snake(g.tokens@[j].name@),
{
    let mut out: Vec<String> = Vec::new();
    let n_const = g.const_tokens.len();
    let mut i: usize = 0;
    while i < n_const
        invariant
            0 <= i <= n_const,
            n_const == g.const_tokens@.len(),
            out@.len() == i,
            forall|p: int|
                0 <= p < i ==> #[trigger] out@[p]@ == crate::names::upper_snake(
                    g.const_tokens@[p].name@,
                ),
        decreases n_const - i,
    {
        out.push(crate::names::to_upper_snake_case(g.const_tokens[i].name.as_str()));
        i = i + 1;
    }
    let n_tok = g.tokens.len();
    let mut j: usize = 0;
    while j < n_tok
        invariant
            0 <= j <= n_tok,
            n_tok == g.tokens@.len(),
            n_const == g.const_tokens@.len(),
            out@.len() == n_const + j,
            forall|p: int|
                0 <= p < n_const ==> #[trigger] out@[p]@ == crate::names::upper_snake(
                    g.const_tokens@[p].name@,
                ),
            forall|p: int|
                0 <= p < j ==> #[trigger] out@[n_const + p]@ == crate::names::upper_snake(
                    g.tokens@[p].name@,
                ),
        decreases n_tok - j,
    {
        out.push(crate::names::to_upper_snake_case(g.tokens[j].name.as_str()));
        j = j + 1;
    }
    out
}

/// The pascal-case display name of every token of the grammar, fixed tokens
/// first, in declaration order, parallel to `kind_wire_names`.
pub fn kind_display_names(g: &Grammar) -> (r: Vec<String>)
    ensures
        r@.len() == g.const_tokens@.len() + g.tokens@.len(),
        forall|i: int|
            0 <= i < g.const_tokens@.len() ==> #[trigger] r@[i]@ == crate::names::pascal(
                g.const_tokens@[i].name@,
            ),
        forall|j: int|
            0 <= j < g.tokens@.len() ==> #[trigger] r@[g.const_tokens@.len() + j]@
                == crate::names::pascal(g.tokens@[j].name@),
{
    let mut out: Vec<String> = Vec::new();
    let n_const = g.const_tokens.len();
    let mut i: usize = 0;
    while i < n_const
        invariant
            0 <= i <= n_const,
            n_const == g.const_tokens@.len(),
            out@.len() == i,
            forall|p: int|
                0 <= p < i ==> #[trigger] out@[p]@ == crate::names::pascal(
                    g.const_tokens@[p].name@,
                ),
        decreases n_const - i,
    {
        out.push(crate::names::to_pascal_case(g.const_tokens[i].name.as_str()));
        i = i + 1;
    }
    let n_tok = g.tokens.len();
    let mut j: usize = 0;
    while j < n_tok
        invariant
            0 <= j <= n_tok,
            n_tok == g.tokens@.len(),
            n_const == g.const_tokens@.len(),
            out@.len() == n_const + j,
            forall|p: int|
                0 <= p < n_const ==> #[trigger] out@[p]@ == crate::names::pascal(
                    g.const_tokens@[p].name@,
                ),
            forall|p: int|
                0 <= p < j ==> #[trigger] out@[n_const + p]@ == crate::names::pascal(
                    g.tokens@[p].name@,
                ),
        decreases n_tok - j,
    {
        out.push(crate::names::to_pascal_case(g.tokens[j].name.as_str()));
        j = j + 1;
    }
    out
}

/// The accessor names the generator gives one schema node's child slots, in
/// slot order: the lower-snake-case slot name, pluralized where the slot is
/// repeated.
pub fn node_accessor_names(node: &NodeDef) -> (r: Vec<String>)
    ensures
        r@.len() == node.slots@.len(),
        forall|k: int|
            0 <= k < node.slots@.len() ==> #[trigger] r@[k]@ == (
            if node.slots@[k].cardinality is Repeated {
                crate::names::lower_snake(node.slots@[k].name@).push('s')
            } else {
                crate::names::lower_snake(node.slots@[k].name@)
            }),
{
    let mut out: Vec<String> = Vec::new();
    let m = node.slots.len();
    let mut k: usize = 0;
    while k < m
        invariant
            0 <= k <= m,
            m == node.slots@.len(),
            out@.len() == k,
            forall|q: int|
                0 <= q < k ==> #[trigger] out@[q]@ == (
                if node.slots@[q].cardinality is Repeated {
                    crate::names::lower_snake(node.slots@[q].name@).push('s')
                } else {
                    crate::names::lower_snake(node.slots@[q].name@)
                }),
        decreases m - k,
    {
        out.push(accessor_name(&node.slots[k]));
        k = k + 1;
    }
    out
}

/// The pascal-case type name the generator gives each schema node.
pub fn node_type_names(schema: &Schema) -> (r: Vec<String>)
    ensures
        r@.len() == schema.nodes@.len(),
        forall|i: int|
            0 <= i < schema.nodes@.len() ==> #[trigger] r@[i]@ == crate::names::pascal(
                schema.nodes@[i].name@,
            ),
{
    let mut out: Vec<String> = Vec::new();
    let n = schema.nodes.len();
    let mut i: usize = 0;
    while i < n
        invariant
            0 <= i <= n,
            n == schema.nodes@.len(),
            out@.len() == i,
            forall|p: int|
                0 <= p < i ==> #[trigger] out@[p]@ == crate::names::pascal(
                    schema.nodes@[p].name@,
                ),
        decreases n - i,
    {
        out.push(crate::names::to_pascal_case(schema.nodes[i].name.as_str()));
        i = i + 1;
    }
    out
}

/// The accessor name the generator gives a child slot: the lower-snake-case
/// slot name, pluralized when the slot is repeated.
pub fn accessor_name(slot: &Slot) -> (r: String)
    ensures
        slot.cardinality is Repeated ==> r@ == crate::names::lower_snake(slot.name@).push('s'),
        !(slot.cardinality is Repeated) ==> r@ == crate::names::lower_snake(slot.name@),
{
    let base = crate::names::to_lower_snake_case(slot.name.as_str());
    match slot.cardinality {
        Cardinality::Repeated => crate::names::pluralize(base.as_str()),
        Cardinality::Optional => base,
        Cardinality::Required => base,
    }
}

/// Whether the given name occurs in the list.
pub fn name_listed(names: &Vec<String>, name: &String) -> (r: bool)
    ensures
        r == token_defined(names@.map_values(|s: String| s@), name@),
{
    let n = names.len();
    let mut i: usize = 0;
    while i < n
        invariant
            n == names@.len(),
            0 <= i <= n,
            forall|p: int| 0 <= p < i ==> #[trigger] names@[p]@ != name@,
        decreases n - i,
    {
        if names[i].eq(name) {
            proof {
                assert(names@.map_values(|s: String| s@)[i as int] == names@[i as int]@);
            }
            return true;
        }
        i = i + 1;
    }
    proof {
        let mapped = names@.map_values(|s: String| s@);
        assert forall|p: int| 0 <= p < mapped.len() implies #[trigger] mapped[p] != name@ by {
            assert(mapped[p] == names@[p]@);
        }
    }
    false
}

} // verus!
