//! Symbol extraction from syntax trees: the source is parsed with the
//! Tree-sitter grammar of its language, and every node that is a
//! definition and has a `name` child gives a symbol.
use tree_sitter::{Language, Parser, Tree};
use vstd::prelude::*;
use vstd::utf8::{decode_utf8, encode_utf8, valid_utf8};

use crate::server::{info_models, spec_symbol_kind, symbol_kind, SymbolInfo, SymbolInfoModel};
use crate::text::same_text;

verus! {

#[verifier::external_type_specification]
#[verifier::external_body]
pub struct ExTree(Tree);

/// The grammars the server parses with.
#[derive(Clone, Copy)]
pub enum Grammar {
    Rust,
    Python,
    JavaScript,
}

/// The grammar a language name (`"rust"`, `"python"`, `"javascript"`)
/// stands for.
pub open spec fn grammar_named(language: Seq<char>) -> Option<Grammar> {
    if language == "rust"@ {
        Some(Grammar::Rust)
    } else if language == "python"@ {
        Some(Grammar::Python)
    } else if language == "javascript"@ {
        Some(Grammar::JavaScript)
    } else {
        None
    }
}

/// A node of a syntax tree as plain values: its kind, the 0-based row it
/// starts on, the byte range of its `name` child, if it has one, and the
/// number of nodes in its subtree, itself included.
pub type SyntaxNode = (Seq<char>, nat, Option<(nat, nat)>, nat);

/// The nodes of the tree Tree-sitter parses `source` into with `grammar`,
/// numbered as `TreeCursor::goto_descendant` numbers them from the root
/// (the root is 0, a node comes before its children, and the subtrees of
/// its children follow it one after the other); `None` when the
/// parser refuses the grammar or gives no tree. Parsing is a function of
/// the grammar and the text alone.
pub uninterp spec fn syntax_tree(grammar: Grammar, source: Seq<char>) -> Option<Seq<SyntaxNode>>;

/// The nodes a tree holds, numbered as `TreeCursor::goto_descendant`
/// numbers them from the root.
pub uninterp spec fn tree_nodes(tree: Tree) -> Seq<SyntaxNode>;

/// Wraps `Parser::parse` on the whole text, without an earlier tree, by a
/// new parser (`Parser::new`) given the grammar's language
/// (`Parser::set_language` with `tree_sitter_{rust,python,javascript}::LANGUAGE`);
/// `None` when the language is refused or no tree comes back.
#[verifier::external_body]
fn parse_source(grammar: Grammar, source: &str) -> (r: Option<Tree>)
    ensures
        (r is Some) == (syntax_tree(grammar, source@) is Some),
        r matches Some(tree) ==> tree_nodes(tree) == syntax_tree(grammar, source@)->0,
{
    let language: Language = match grammar {
        Grammar::Rust => tree_sitter_rust::LANGUAGE.into(),
        Grammar::Python => tree_sitter_python::LANGUAGE.into(),
        Grammar::JavaScript => tree_sitter_javascript::LANGUAGE.into(),
    };
    let mut parser = Parser::new();
    parser.set_language(&language).ok()?;
    parser.parse(source, None)
}

/// Wraps `Node::descendant_count` of the root (`Tree::root_node`): the
/// number of nodes in the tree.
#[verifier::external_body]
fn node_total(tree: &Tree) -> (r: usize)
    ensures
        r == tree_nodes(*tree).len(),
{
    tree.root_node().descendant_count()
}

/// Wraps `Node::kind` of node `i`, reached from the root with
/// `TreeCursor::goto_descendant`.
#[verifier::external_body]
fn node_kind_at(tree: &Tree, i: usize) -> (r: String)
    requires
        i < tree_nodes(*tree).len(),
    ensures
        r@ == tree_nodes(*tree)[i as int].0,
{
    let mut cursor = tree.walk();
    cursor.goto_descendant(i);
    cursor.node().kind().to_owned()
}

/// Wraps `Node::descendant_count` of node `i`: the size of its subtree.
#[verifier::external_body]
fn node_size_at(tree: &Tree, i: usize) -> (r: usize)
    requires
        i < tree_nodes(*tree).len(),
    ensures
        r == tree_nodes(*tree)[i as int].3,
{
    let mut cursor = tree.walk();
    cursor.goto_descendant(i);
    cursor.node().descendant_count()
}

/// Wraps `Node::start_position` of node `i`, giving its row.
#[verifier::external_body]
fn node_row_at(tree: &Tree, i: usize) -> (r: usize)
    requires
        i < tree_nodes(*tree).len(),
    ensures
        r == tree_nodes(*tree)[i as int].1,
{
    let mut cursor = tree.walk();
    cursor.goto_descendant(i);
    cursor.node().start_position().row
}

/// Wraps `Node::child_by_field_name("name")` of node `i`, giving the byte
/// range (`start_byte`, `end_byte`) of that child.
#[verifier::external_body]
fn name_range_at(tree: &Tree, i: usize) -> (r: Option<(usize, usize)>)
    requires
        i < tree_nodes(*tree).len(),
    ensures
        match r {
            Some((a, b)) => tree_nodes(*tree)[i as int].2 == Some((a as nat, b as nat)),
            None => tree_nodes(*tree)[i as int].2 is None,
        },
{
    let mut cursor = tree.walk();
    cursor.goto_descendant(i);
    cursor.node().child_by_field_name("name").map(|child| (child.start_byte(), child.end_byte()))
}

/// Wraps `std::str::from_utf8`: the text the bytes encode, when they are
/// valid UTF-8.
#[verifier::external_body]
fn utf8_text(bytes: &[u8]) -> (r: Option<&str>)
    ensures
        (r is Some) == valid_utf8(bytes@),
        r matches Some(text) ==> text@ == decode_utf8(bytes@),
{
    std::str::from_utf8(bytes).ok()
}

/// The definition kinds a language has.
pub open spec fn is_definition_kind(language: Seq<char>, kind: Seq<char>) -> bool {
    ||| language == "rust"@ && (kind == "function"@ || kind == "struct"@ || kind == "enum"@
        || kind == "trait"@)
    ||| language == "python"@ && (kind == "function"@ || kind == "class"@)
    ||| language == "javascript"@ && (kind == "function"@ || kind == "class"@)
}

/// The symbol a syntax node gives: a definition kind for `node_kind`, and
/// a name, located at 0-based row `row`.
pub open spec fn spec_node_symbol(
    path: Seq<char>,
    language: Seq<char>,
    node_kind: Seq<char>,
    name: Option<Seq<char>>,
    row: int,
) -> Option<(Seq<char>, Seq<char>, int, Seq<char>)> {
    match (spec_symbol_kind(language, node_kind), name) {
        (Some(kind), Some(n)) => Some((n, path, row + 1, kind)),
        _ => None,
    }
}

/// The symbol a syntax node of kind `node_kind`, whose name child reads
/// `name` (when it has one that is valid UTF-8), starting at 0-based row
/// `row`, gives in the file at `path`.
pub fn node_symbol(path: &str, language: &str, node_kind: &str, name: Option<&str>, row: usize) -> (r:
    Option<SymbolInfo>)
    requires
        row < usize::MAX,
    ensures
        match r {
            Some(s) => spec_node_symbol(path@, language@, node_kind@, name.deep_view(), row as int)
                == Some(s@),
            None => spec_node_symbol(path@, language@, node_kind@, name.deep_view(), row as int)
                is None,
        },
{
    match (symbol_kind(language, node_kind), name) {
        (Some(kind), Some(n)) => Some(
            SymbolInfo { name: n.to_owned(), path: path.to_owned(), line: row + 1, kind: kind.to_owned() },
        ),
        _ => None,
    }
}


/// The name a node's `name` child reads in the text whose bytes are
/// `bytes`, when it has one inside the text that is valid UTF-8.
pub open spec fn node_name(node: SyntaxNode, bytes: Seq<u8>) -> Option<Seq<char>> {
    match node.2 {
        Some((a, b)) => if a <= b <= bytes.len() && valid_utf8(bytes.subrange(a as int, b as int)) {
            Some(decode_utf8(bytes.subrange(a as int, b as int)))
        } else {
            None
        },
        None => None,
    }
}

/// The symbol a node of a file gives, if any.
pub open spec fn tree_node_symbol(path: Seq<char>, language: Seq<char>, node: SyntaxNode, bytes: Seq<u8>) -> Option<SymbolInfoModel> {
    if node.1 < usize::MAX {
        spec_node_symbol(path, language, node.0, node_name(node, bytes), node.1 as int)
    } else {
        None
    }
}

/// The symbols node `i` gives: one or none.
pub open spec fn node_symbols(path: Seq<char>, language: Seq<char>, nodes: Seq<SyntaxNode>, bytes: Seq<u8>, i: int) -> Seq<SymbolInfoModel> {
    match tree_node_symbol(path, language, nodes[i], bytes) {
        Some(s) => seq![s],
        None => Seq::empty(),
    }
}

/// The symbols of the subtree of node `i`, visited as a stack visits it:
/// the node itself, then the subtrees of its children, the last child
/// first.
pub open spec fn subtree_symbols(path: Seq<char>, language: Seq<char>, nodes: Seq<SyntaxNode>, bytes: Seq<u8>, i: int) -> Seq<SymbolInfoModel>
    decreases nodes[i].3, 1int,
{
    if nodes[i].3 >= 1 {
        node_symbols(path, language, nodes, bytes, i) + children_symbols(
            path,
            language,
            nodes,
            bytes,
            i + 1,
            i + nodes[i].3,
        )
    } else {
        node_symbols(path, language, nodes, bytes, i)
    }
}

/// The symbols of the subtrees of the children of a node that run from
/// node `c` to just before node `end`, the last child's first: a child
/// starts where its elder sibling's subtree ends.
pub open spec fn children_symbols(path: Seq<char>, language: Seq<char>, nodes: Seq<SyntaxNode>, bytes: Seq<u8>, c: int, end: int) -> Seq<SymbolInfoModel>
    decreases end - c, 2int,
{
    if c < end && 1 <= nodes[c].3 && nodes[c].3 <= end - c {
        children_symbols(path, language, nodes, bytes, c + nodes[c].3, end) + subtree_symbols(
            path,
            language,
            nodes,
            bytes,
            c,
        )
    } else {
        Seq::empty()
    }
}

/// The symbols of the subtrees of the nodes on a stack, the top first.
pub open spec fn pending_symbols(path: Seq<char>, language: Seq<char>, nodes: Seq<SyntaxNode>, bytes: Seq<u8>, stack: Seq<usize>) -> Seq<SymbolInfoModel>
    decreases stack.len(),
{
    if stack.len() == 0 {
        Seq::empty()
    } else {
        subtree_symbols(path, language, nodes, bytes, stack.last() as int) + pending_symbols(
            path,
            language,
            nodes,
            bytes,
            stack.drop_last(),
        )
    }
}

/// The sizes of the subtrees of the nodes on a stack, summed.
pub open spec fn stack_weight(nodes: Seq<SyntaxNode>, stack: Seq<usize>) -> nat
    decreases stack.len(),
{
    if stack.len() == 0 {
        0
    } else {
        nodes[stack.last() as int].3 + stack_weight(nodes, stack.drop_last())
    }
}

/// The root's subtree holds nodes of the tree only.
pub open spec fn root_fits(nodes: Seq<SyntaxNode>) -> bool {
    nodes.len() > 0 && 1 <= nodes[0].3 <= nodes.len()
}

/// What [`extract_symbols`] gives: one symbol for each node of the syntax
/// tree that is a definition of the language and has a `name` child
/// reading valid UTF-8, nodes visited depth first from a stack (a node
/// before its children, the last child first); none for another language
/// or when no tree comes back.
pub open spec fn spec_tree_symbols(path: Seq<char>, language: Seq<char>, source: Seq<char>) -> Seq<SymbolInfoModel> {
    match grammar_named(language) {
        Some(grammar) => match syntax_tree(grammar, source) {
            Some(nodes) => if root_fits(nodes) {
                subtree_symbols(path, language, nodes, encode_utf8(source), 0)
            } else {
                Seq::empty()
            },
            None => Seq::empty(),
        },
        None => Seq::empty(),
    }
}

/// The symbols every result of [`extract_symbols`] satisfies: from the
/// file at `path`, on a line counted from 1, of a definition kind of the
/// language.
pub open spec fn tree_symbol_ok(path: Seq<char>, language: Seq<char>, s: SymbolInfoModel) -> bool {
    &&& s.1 == path
    &&& s.2 >= 1
    &&& is_definition_kind(language, s.3)
}

/// The grammar of a language name, found by comparing the name.
fn grammar_of(language: &str) -> (r: Option<Grammar>)
    ensures
        r == grammar_named(language@),
{
    if same_text(language, "rust") {
        Some(Grammar::Rust)
    } else if same_text(language, "python") {
        Some(Grammar::Python)
    } else if same_text(language, "javascript") {
        Some(Grammar::JavaScript)
    } else {
        None
    }
}

/// The symbol node `i` gives, when it is a definition with a readable name.
fn symbol_at(tree: &Tree, i: usize, path: &str, language: &str, bytes: &[u8]) -> (r: Option<SymbolInfo>)
    requires
        i < tree_nodes(*tree).len(),
    ensures
        match r {
            Some(s) => node_symbols(path@, language@, tree_nodes(*tree), bytes@, i as int) == seq![s@],
            None => node_symbols(path@, language@, tree_nodes(*tree), bytes@, i as int) == Seq::<SymbolInfoModel>::empty(),
        },
        r matches Some(s) ==> tree_symbol_ok(path@, language@, s@),
{
    let kind = node_kind_at(tree, i);
    if symbol_kind(language, kind.as_str()).is_some() {
        if let Some((a, b)) = name_range_at(tree, i) {
            if a <= b && b <= bytes.len() {
                let name_bytes = vstd::slice::slice_subrange(bytes, a, b);
                if let Some(name) = utf8_text(name_bytes) {
                    let row = node_row_at(tree, i);
                    if row < usize::MAX {
                        return node_symbol(path, language, kind.as_str(), Some(name), row);
                    }
                }
            }
        }
    }
    None
}

/// The definitions in `source`, a text in `language`, found in its syntax
/// tree: each node of a definition kind with a `name` child gives a
/// symbol, nested definitions (the methods of an `impl` or a class)
/// included. Nodes are visited depth first from a stack, the children of a
/// node pushed in order (so the last child is visited first). Other
/// languages and a failed parse give no symbols.
pub fn extract_symbols(path: &str, language: &str, source: &str) -> (r: Vec<SymbolInfo>)
    ensures
        info_models(r@) == spec_tree_symbols(path@, language@, source@),
        grammar_named(language@) is None ==> r@.len() == 0,
        forall|i: int| 0 <= i < r@.len() ==> tree_symbol_ok(path@, language@, #[trigger] r@[i]@),
{
    let grammar = match grammar_of(language) {
        Some(g) => g,
        None => return Vec::new(),
    };
    let tree = match parse_source(grammar, source) {
        Some(tree) => tree,
        None => return Vec::new(),
    };
    let ghost nodes = tree_nodes(tree);
    let bytes = source.as_bytes();
    let total = node_total(&tree);
    if total == 0 {
        return Vec::new();
    }
    let root_size = node_size_at(&tree, 0);
    if root_size < 1 || root_size > total {
        return Vec::new();
    }
    let ghost target = subtree_symbols(path@, language@, nodes, bytes@, 0);
    let mut symbols: Vec<SymbolInfo> = Vec::new();
    let mut stack: Vec<usize> = Vec::new();
    stack.push(0);
    proof {
        assert(stack@.drop_last() =~= Seq::<usize>::empty());
        assert(info_models(symbols@) =~= Seq::<SymbolInfoModel>::empty());
        assert(pending_symbols(path@, language@, nodes, bytes@, stack@.drop_last()) == Seq::<SymbolInfoModel>::empty());
        assert(pending_symbols(path@, language@, nodes, bytes@, stack@) =~= target);
        assert(info_models(symbols@) + pending_symbols(path@, language@, nodes, bytes@, stack@) =~= target);
    }
    while stack.len() > 0
        invariant
            total == nodes.len(),
            nodes == tree_nodes(tree),
            bytes@ == encode_utf8(source@),
            forall|j: int|
                0 <= j < stack@.len() ==> 1 <= nodes[#[trigger] stack@[j] as int].3 && stack@[j]
                    + nodes[stack@[j] as int].3 <= total,
            info_models(symbols@) + pending_symbols(path@, language@, nodes, bytes@, stack@) == target,
            forall|i: int| 0 <= i < symbols@.len() ==> tree_symbol_ok(path@, language@, #[trigger] symbols@[i]@),
        decreases stack_weight(nodes, stack@),
    {
        let ghost before_pop = stack@;
        let i = stack.pop().unwrap();
        let ghost base = stack@;
        let ghost out = info_models(symbols@);
        assert(before_pop.drop_last() =~= base);
        assert(before_pop.last() == i);
        let ghost size_i = nodes[i as int].3;
        let ghost node_part = node_symbols(path@, language@, nodes, bytes@, i as int);
        let ghost kids = children_symbols(path@, language@, nodes, bytes@, i + 1, i + size_i);
        assert(pending_symbols(path@, language@, nodes, bytes@, before_pop) == node_part + kids
            + pending_symbols(path@, language@, nodes, bytes@, base)) by {
            assert(subtree_symbols(path@, language@, nodes, bytes@, i as int) == node_part + kids);
            assert(node_part + kids + pending_symbols(path@, language@, nodes, bytes@, base) =~= (node_part
                + kids) + pending_symbols(path@, language@, nodes, bytes@, base));
        }
        if let Some(symbol) = symbol_at(&tree, i, path, language, bytes) {
            let ghost before = symbols@;
            symbols.push(symbol);
            assert(info_models(symbols@) =~= info_models(before).push(symbol@));
            assert forall|k: int| 0 <= k < symbols@.len() implies tree_symbol_ok(
                path@,
                language@,
                #[trigger] symbols@[k]@,
            ) by {
                if k < before.len() {
                    assert(symbols@[k] == before[k]);
                }
            }
        }
        assert(info_models(symbols@) =~= out + node_part);
        let size = node_size_at(&tree, i);
        let end = i + size;
        let mut c = i + 1;
        while c < end
            invariant
                total == nodes.len(),
                nodes == tree_nodes(tree),
                end == i + nodes[i as int].3,
                end <= total,
                i + 1 <= c <= end,
                stack@.len() >= base.len(),
                stack@.subrange(0, base.len() as int) == base,
                forall|j: int|
                    0 <= j < stack@.len() ==> 1 <= nodes[#[trigger] stack@[j] as int].3 && stack@[j]
                        + nodes[stack@[j] as int].3 <= total,
                children_symbols(path@, language@, nodes, bytes@, c as int, end as int)
                    + pending_symbols(path@, language@, nodes, bytes@, stack@) == kids
                    + pending_symbols(path@, language@, nodes, bytes@, base),
                stack_weight(nodes, stack@) == stack_weight(nodes, base) + (c - (i + 1)),
            ensures
                children_symbols(path@, language@, nodes, bytes@, c as int, end as int) == Seq::<SymbolInfoModel>::empty(),
            decreases end - c,
        {
            let child_size = node_size_at(&tree, c);
            if child_size < 1 || child_size > end - c {
                assert(children_symbols(path@, language@, nodes, bytes@, c as int, end as int) == Seq::<SymbolInfoModel>::empty());
                break;
            }
            let ghost s0 = stack@;
            let ghost sub = subtree_symbols(path@, language@, nodes, bytes@, c as int);
            let ghost rest = children_symbols(path@, language@, nodes, bytes@, c + child_size, end as int);
            stack.push(c);
            proof {
                assert(stack@.drop_last() =~= s0);
                assert(stack@.last() == c);
                assert(children_symbols(path@, language@, nodes, bytes@, c as int, end as int) == rest + sub);
                assert(pending_symbols(path@, language@, nodes, bytes@, stack@) == sub + pending_symbols(path@, language@, nodes, bytes@, s0));
                assert(rest + (sub + pending_symbols(path@, language@, nodes, bytes@, s0)) =~= (rest + sub)
                    + pending_symbols(path@, language@, nodes, bytes@, s0));
                assert(stack@.subrange(0, base.len() as int) =~= s0.subrange(0, base.len() as int));
                assert forall|j: int|
                    0 <= j < stack@.len() implies 1 <= nodes[#[trigger] stack@[j] as int].3 && stack@[j]
                        + nodes[stack@[j] as int].3 <= total by {
                    if j < s0.len() {
                        assert(stack@[j] == s0[j]);
                    }
                }
            }
            c = c + child_size;
        }
        proof {
            assert(children_symbols(path@, language@, nodes, bytes@, c as int, end as int) == Seq::<SymbolInfoModel>::empty());
            assert(Seq::<SymbolInfoModel>::empty() + pending_symbols(path@, language@, nodes, bytes@, stack@) =~= pending_symbols(path@, language@, nodes, bytes@, stack@));
            assert(info_models(symbols@) + pending_symbols(path@, language@, nodes, bytes@, stack@) =~= out + (node_part
                + kids + pending_symbols(path@, language@, nodes, bytes@, base)));
            assert(stack_weight(nodes, before_pop) == size_i + stack_weight(nodes, base));
        }
    }
    proof {
        assert(pending_symbols(path@, language@, nodes, bytes@, stack@) == Seq::<SymbolInfoModel>::empty());
        assert(info_models(symbols@) =~= target);
    }
    symbols
}

} // verus!
