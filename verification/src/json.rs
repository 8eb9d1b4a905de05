use vstd::prelude::*;
use vstd::string::StringExecFns;
use crate::error::Error;
use crate::stringify::push_char;

verus! {

/// A token of the JSON text of a value; `N` is how a number is carried
/// (as the text that displays it, when JSON text is written).
#[derive(Debug, Clone)]
pub enum Token<N> {
    Null,
    Num(N),
    String(String),
    Bool(bool),
    LBrace,
    RBrace,
    LBracket,
    RBracket,
    Comma,
    Colon,
}

/// `amt` copies of `c`.
pub open spec fn repeat(c: char, amt: nat) -> Seq<char>
    decreases amt,
{
    if amt == 0 {
        seq![]
    } else {
        repeat(c, (amt - 1) as nat).push(c)
    }
}

/// Appends `amt` copies of `indent` to `val`.
pub fn fill(val: &mut String, indent: char, amt: usize)
    ensures
        final(val)@ == old(val)@ + repeat(indent, amt as nat),
{
    let mut i: usize = 0;
    while i < amt
        invariant
            i <= amt,
            val@ == old(val)@ + repeat(indent, i as nat),
        decreases amt - i,
    {
        push_char(val, indent);
        i = i + 1;
        assert(val@ =~= old(val)@ + repeat(indent, i as nat));
    }
}

/// Whether the token opens a nesting level.
pub open spec fn opens<N>(t: Token<N>) -> bool {
    t is LBracket || t is LBrace
}

/// The indentation level after the token.
pub open spec fn next_indent<N>(t: Token<N>, indent: nat) -> nat {
    match t {
        Token::LBracket | Token::LBrace => indent + 1,
        Token::RBracket | Token::RBrace => if indent > 0 {
            (indent - 1) as nat
        } else {
            0
        },
        _ => indent,
    }
}

/// The text that a token adds at indentation level `indent`.
pub open spec fn piece(t: Token<String>, indent: nat) -> Seq<char> {
    match t {
        Token::Null => "null"@,
        Token::String(a) => seq!['"'] + a@ + seq!['"'],
        Token::LBracket => seq!['{', '\n'] + repeat('\t', indent + 1),
        Token::RBracket => seq!['}'],
        Token::LBrace => seq!['[', '\n'] + repeat('\t', indent + 1),
        Token::RBrace => seq!['\n', ']'],
        Token::Bool(a) => if a {
            "true"@
        } else {
            "false"@
        },
        Token::Num(a) => a@,
        Token::Comma => ",\n"@ + repeat('\t', indent),
        Token::Colon => ": "@,
    }
}

/// The text of the tokens, written from indentation level `indent`.
pub open spec fn emit(toks: Seq<Token<String>>, indent: nat) -> Seq<char>
    decreases toks.len(),
{
    if toks.len() == 0 {
        seq![]
    } else {
        piece(toks[0], indent) + emit(toks.drop_first(), next_indent(toks[0], indent))
    }
}

/// `repeat` makes `amt` copies of its character.
proof fn lemma_repeat(c: char, amt: nat)
    ensures
        repeat(c, amt).len() == amt,
        forall|j: int| 0 <= j < amt ==> repeat(c, amt)[j] == c,
    decreases amt,
{
    if amt > 0 {
        lemma_repeat(c, (amt - 1) as nat);
    }
}

/// Each token writes its JSON text: `null`, a text between double quotes,
/// `true` or `false`, a number's digits, `: ` for a colon; a comma starts
/// a new line indented to the current level; an object (`LBracket`) or an
/// array (`LBrace`) opens with its bracket and a new line indented one
/// level deeper, and closes with its bracket (an array's on a line of its
/// own); the tokens after an opening are written one level deeper, and
/// those after a closing one level up.
pub proof fn lemma_tokens_write_their_json(a: String, b: bool, indent: nat, rest: Seq<Token<String>>)
    ensures
        emit(seq![Token::Null], indent) == "null"@,
        emit(seq![Token::String(a)], indent) == seq!['"'] + a@ + seq!['"'],
        emit(seq![Token::<String>::Bool(true)], indent) == "true"@,
        emit(seq![Token::<String>::Bool(false)], indent) == "false"@,
        emit(seq![Token::Num(a)], indent) == a@,
        emit(seq![Token::<String>::Colon], indent) == ": "@,
        ({
            let t = emit(seq![Token::<String>::Comma], indent);
            &&& t.len() == 2 + indent && t[0] == ',' && t[1] == '\n'
            &&& forall|j: int| 2 <= j < t.len() ==> t[j] == '\t'
        }),
        ({
            let t = emit(seq![Token::<String>::LBracket], indent);
            &&& t.len() == 3 + indent && t[0] == '{' && t[1] == '\n'
            &&& forall|j: int| 2 <= j < t.len() ==> t[j] == '\t'
        }),
        ({
            let t = emit(seq![Token::<String>::LBrace], indent);
            &&& t.len() == 3 + indent && t[0] == '[' && t[1] == '\n'
            &&& forall|j: int| 2 <= j < t.len() ==> t[j] == '\t'
        }),
        emit(seq![Token::<String>::RBracket], indent) == seq!['}'],
        emit(seq![Token::<String>::RBrace], indent) == seq!['\n', ']'],
        emit(seq![Token::<String>::LBracket] + rest, indent) == emit(seq![Token::<String>::LBracket], indent) + emit(rest, indent + 1),
        emit(seq![Token::<String>::LBrace] + rest, indent) == emit(seq![Token::<String>::LBrace], indent) + emit(rest, indent + 1),
        indent > 0 ==> emit(seq![Token::<String>::RBracket] + rest, indent) == seq!['}'] + emit(rest, (indent - 1) as nat),
        indent > 0 ==> emit(seq![Token::<String>::RBrace] + rest, indent) == seq!['\n', ']'] + emit(rest, (indent - 1) as nat),
{
    reveal_with_fuel(emit, 2);
    lemma_repeat('\t', indent);
    lemma_repeat('\t', indent + 1);
    assert(seq![Token::<String>::LBracket].drop_first() =~= Seq::<Token<String>>::empty());
    assert((seq![Token::<String>::LBracket] + rest).drop_first() =~= rest);
    assert((seq![Token::<String>::LBrace] + rest).drop_first() =~= rest);
    assert((seq![Token::<String>::RBracket] + rest).drop_first() =~= rest);
    assert((seq![Token::<String>::RBrace] + rest).drop_first() =~= rest);
    assert(seq!['"'] + a@ + seq!['"'] + Seq::<char>::empty() =~= seq!['"'] + a@ + seq!['"']);
    assert(a@ + Seq::<char>::empty() =~= a@);
    assert("null"@ + Seq::<char>::empty() =~= "null"@);
    assert("true"@ + Seq::<char>::empty() =~= "true"@);
    assert("false"@ + Seq::<char>::empty() =~= "false"@);
    assert(": "@ + Seq::<char>::empty() =~= ": "@);
    assert(seq!['}'] + Seq::<char>::empty() =~= seq!['}']);
    assert(seq!['\n', ']'] + Seq::<char>::empty() =~= seq!['\n', ']']);
    reveal_strlit(",\n");
    let c = ",\n"@ + repeat('\t', indent);
    assert(c + Seq::<char>::empty() =~= c);
    let l = seq!['{', '\n'] + repeat('\t', indent + 1);
    assert(l + Seq::<char>::empty() =~= l);
    let k = seq!['[', '\n'] + repeat('\t', indent + 1);
    assert(k + Seq::<char>::empty() =~= k);
}

/// The indentation level never passes `usize::MAX` while the tokens are
/// written from level `indent`.
pub open spec fn indent_fits(toks: Seq<Token<String>>, indent: nat) -> bool
    decreases toks.len(),
{
    toks.len() == 0 || ((opens(toks[0]) ==> indent + 1 <= usize::MAX) && indent_fits(
        toks.drop_first(),
        next_indent(toks[0], indent),
    ))
}

/// Writes the tokens as indented JSON text, starting with `indent` tabs.
pub fn to_json(val: Vec<Token<String>>, indent: usize) -> (r: Result<String, Error>)
    requires
        indent_fits(val@, indent as nat),
    ensures
        r matches Ok(s) && s@ == repeat('\t', indent as nat) + emit(val@, indent as nat),
{
    let mut indent = indent;
    let mut json = String::new();
    fill(&mut json, '\t', indent);
    let ghost indent0 = indent as nat;
    let mut i: usize = 0;
    assert(val@.skip(0) =~= val@);
    while i < val.len()
        invariant
            i <= val@.len(),
            indent_fits(val@.skip(i as int), indent as nat),
            repeat('\t', indent0) + emit(val@, indent0) == json@ + emit(
                val@.skip(i as int),
                indent as nat,
            ),
        decreases val@.len() - i,
    {
        let ghost rest = val@.skip(i as int);
        let ghost before = json@;
        let ghost lvl = indent as nat;
        assert(rest.drop_first() =~= val@.skip(i + 1));
        match &val[i] {
            Token::Null => {
                json.append("null");
            },
            Token::String(a) => {
                push_char(&mut json, '"');
                json.append(a.as_str());
                push_char(&mut json, '"');
            },
            Token::LBracket => {
                push_char(&mut json, '{');
                push_char(&mut json, '\n');
                indent += 1;
                fill(&mut json, '\t', indent);
            },
            Token::RBracket => {
                push_char(&mut json, '}');
                if indent > 0 {
                    indent -= 1;
                }
            },
            Token::LBrace => {
                push_char(&mut json, '[');
                push_char(&mut json, '\n');
                indent += 1;
                fill(&mut json, '\t', indent);
            },
            Token::RBrace => {
                push_char(&mut json, '\n');
                push_char(&mut json, ']');
                if indent > 0 {
                    indent -= 1;
                }
            },
            Token::Bool(a) => {
                json.append(
                    if *a {
                        "true"
                    } else {
                        "false"
                    },
                );
            },
            Token::Num(a) => {
                json.append(a.as_str());
            },
            Token::Comma => {
                json.append(",\n");
                fill(&mut json, '\t', indent);
            },
            Token::Colon => {
                json.append(": ");
            },
        }
        assert(json@ =~= before + piece(rest[0], lvl));
        assert(indent as nat == next_indent(rest[0], lvl));
        assert(before + emit(rest, lvl) =~= json@ + emit(rest.drop_first(), indent as nat));
        i = i + 1;
    }
    assert(val@.skip(i as int) =~= Seq::<Token<String>>::empty());
    assert(json@ + Seq::<char>::empty() =~= json@);
    Ok(json)
}

/// A node of a JSON document read from text. A document keeps its nodes
/// in a list, each node after the nodes it holds, which it names by their
/// positions in the list.
#[derive(Debug, Clone, PartialEq)]
pub enum JsonNode<N> {
    Null,
    Num(N),
    Str(String),
    Array(Vec<usize>),
    Object(Vec<(String, usize)>),
}

/// A node as the specification sees it.
pub enum NodeView<N> {
    Null,
    Num(N),
    Str(Seq<char>),
    Array(Seq<int>),
    Object(Seq<(Seq<char>, int)>),
}

impl<N> JsonNode<N> {
    pub open spec fn view(&self) -> NodeView<N> {
        match self {
            JsonNode::Null => NodeView::Null,
            JsonNode::Num(n) => NodeView::Num(*n),
            JsonNode::Str(s) => NodeView::Str(s@),
            JsonNode::Array(v) => NodeView::Array(v@.map_values(|i: usize| i as int)),
            JsonNode::Object(v) => NodeView::Object(
                v@.map_values(|e: (String, usize)| (e.0@, e.1 as int)),
            ),
        }
    }
}

/// The nodes of a document, as the specification sees them.
pub open spec fn node_views<N>(nodes: Seq<JsonNode<N>>) -> Seq<NodeView<N>> {
    nodes.map_values(|n: JsonNode<N>| n.view())
}

/// A token as the specification sees it.
pub enum TokenView<N> {
    Null,
    Num(N),
    Str(Seq<char>),
    Bool(bool),
    LBrace,
    RBrace,
    LBracket,
    RBracket,
    Comma,
    Colon,
}

impl<N> Token<N> {
    pub open spec fn view(&self) -> TokenView<N> {
        match self {
            Token::Null => TokenView::Null,
            Token::Num(n) => TokenView::Num(*n),
            Token::String(s) => TokenView::Str(s@),
            Token::Bool(b) => TokenView::Bool(*b),
            Token::LBrace => TokenView::LBrace,
            Token::RBrace => TokenView::RBrace,
            Token::LBracket => TokenView::LBracket,
            Token::RBracket => TokenView::RBracket,
            Token::Comma => TokenView::Comma,
            Token::Colon => TokenView::Colon,
        }
    }
}

/// The tokens, as the specification sees them.
pub open spec fn token_views<N>(ts: Seq<Token<N>>) -> Seq<TokenView<N>> {
    ts.map_values(|t: Token<N>| t.view())
}

/// What reading a value from the front of the tokens gives: the nodes,
/// the value's own node last, with the tokens after the value; or the
/// tokens end before the value does; or they cannot be read as one.
pub enum Reading<N> {
    Done(Seq<NodeView<N>>, Seq<TokenView<N>>),
    More,
    Fail,
}

/// Reads one value from the front of `ts`, adding its nodes after `nodes`:
/// `null`, a number or a string; `[` then no item or items parted by
/// commas, then `]`; `{` then no entry or entries (a string, a colon, a
/// value) parted by commas, then `}`.
pub open spec fn read_value<N>(ts: Seq<TokenView<N>>, nodes: Seq<NodeView<N>>) -> Reading<N>
    decreases ts.len(), 0nat,
{
    if ts.len() == 0 {
        Reading::More
    } else {
        let rest = ts.drop_first();
        match ts[0] {
            TokenView::Null => Reading::Done(nodes.push(NodeView::Null), rest),
            TokenView::Num(n) => Reading::Done(nodes.push(NodeView::Num(n)), rest),
            TokenView::Str(s) => Reading::Done(nodes.push(NodeView::Str(s)), rest),
            TokenView::LBracket => if rest.len() == 0 {
                Reading::More
            } else if rest[0] is RBracket {
                Reading::Done(nodes.push(NodeView::Array(seq![])), rest.drop_first())
            } else {
                read_items(rest, nodes, seq![])
            },
            TokenView::LBrace => if rest.len() == 0 {
                Reading::More
            } else if rest[0] is RBrace {
                Reading::Done(nodes.push(NodeView::Object(seq![])), rest.drop_first())
            } else {
                read_entries(rest, nodes, seq![])
            },
            _ => Reading::Fail,
        }
    }
}

/// Reads the items of an array from the front of `ts`, up to and with its
/// closing `]`; `items` are the nodes of the items read before.
pub open spec fn read_items<N>(ts: Seq<TokenView<N>>, nodes: Seq<NodeView<N>>, items: Seq<int>) -> Reading<N>
    decreases ts.len(), 1nat,
{
    match read_value(ts, nodes) {
        Reading::Done(nodes2, rest) => {
            let items2 = items.push(nodes2.len() - 1);
            if rest.len() == 0 {
                Reading::More
            } else if rest[0] is Comma {
                if rest.len() <= ts.len() {
                    read_items(rest.drop_first(), nodes2, items2)
                } else {
                    Reading::Fail
                }
            } else if rest[0] is RBracket {
                Reading::Done(nodes2.push(NodeView::Array(items2)), rest.drop_first())
            } else {
                Reading::Fail
            }
        },
        Reading::More => Reading::More,
        Reading::Fail => Reading::Fail,
    }
}

/// Reads the entries of an object from the front of `ts`, up to and with
/// its closing `}`; `entries` are the keys and nodes of the entries read
/// before.
pub open spec fn read_entries<N>(
    ts: Seq<TokenView<N>>,
    nodes: Seq<NodeView<N>>,
    entries: Seq<(Seq<char>, int)>,
) -> Reading<N>
    decreases ts.len(), 1nat,
{
    if ts.len() == 0 {
        Reading::More
    } else if let TokenView::Str(k) = ts[0] {
        if ts.len() == 1 {
            Reading::More
        } else if ts[1] is Colon {
            match read_value(ts.skip(2), nodes) {
                Reading::Done(nodes2, rest) => {
                    let entries2 = entries.push((k, nodes2.len() - 1));
                    if rest.len() == 0 {
                        Reading::More
                    } else if rest[0] is Comma {
                        if rest.len() <= ts.len() {
                            read_entries(rest.drop_first(), nodes2, entries2)
                        } else {
                            Reading::Fail
                        }
                    } else if rest[0] is RBrace {
                        Reading::Done(nodes2.push(NodeView::Object(entries2)), rest.drop_first())
                    } else {
                        Reading::Fail
                    }
                },
                Reading::More => Reading::More,
                Reading::Fail => Reading::Fail,
            }
        } else {
            Reading::Fail
        }
    } else {
        Reading::Fail
    }
}

/// Reading a value decides at each token: more tokens after a value that
/// was read leave it and its nodes as they were, and tokens that cannot
/// start a value stay so whatever follows them.
pub proof fn lemma_read_value_extend<N>(ts: Seq<TokenView<N>>, nodes: Seq<NodeView<N>>, more: Seq<TokenView<N>>)
    ensures
        match read_value(ts, nodes) {
            Reading::Done(ns, rest) => read_value(ts + more, nodes) == Reading::Done(ns, rest + more),
            Reading::Fail => read_value(ts + more, nodes) is Fail,
            Reading::More => true,
        },
    decreases ts.len(), 0nat,
{
    if ts.len() > 0 {
        let rest = ts.drop_first();
        assert((ts + more)[0] == ts[0]);
        assert((ts + more).drop_first() =~= rest + more);
        match ts[0] {
            TokenView::LBracket => {
                if rest.len() > 0 {
                    assert((rest + more)[0] == rest[0]);
                    assert((rest + more).drop_first() =~= rest.drop_first() + more);
                    if !(rest[0] is RBracket) {
                        lemma_read_items_extend(rest, nodes, seq![], more);
                    }
                }
            },
            TokenView::LBrace => {
                if rest.len() > 0 {
                    assert((rest + more)[0] == rest[0]);
                    assert((rest + more).drop_first() =~= rest.drop_first() + more);
                    if !(rest[0] is RBrace) {
                        lemma_read_entries_extend(rest, nodes, seq![], more);
                    }
                }
            },
            _ => {},
        }
    }
}

/// `lemma_read_value_extend`, for the items of an array.
pub proof fn lemma_read_items_extend<N>(
    ts: Seq<TokenView<N>>,
    nodes: Seq<NodeView<N>>,
    items: Seq<int>,
    more: Seq<TokenView<N>>,
)
    ensures
        match read_items(ts, nodes, items) {
            Reading::Done(ns, rest) => read_items(ts + more, nodes, items) == Reading::Done(ns, rest + more),
            Reading::Fail => read_items(ts + more, nodes, items) is Fail,
            Reading::More => true,
        },
    decreases ts.len(), 1nat,
{
    lemma_read_value_extend(ts, nodes, more);
    if let Reading::Done(nodes2, rest) = read_value(ts, nodes) {
        if rest.len() > 0 {
            assert((rest + more)[0] == rest[0]);
            assert((rest + more).drop_first() =~= rest.drop_first() + more);
            if rest[0] is Comma && rest.len() <= ts.len() {
                lemma_read_items_extend(rest.drop_first(), nodes2, items.push(nodes2.len() - 1), more);
            }
        }
    }
}

/// `lemma_read_value_extend`, for the entries of an object.
pub proof fn lemma_read_entries_extend<N>(
    ts: Seq<TokenView<N>>,
    nodes: Seq<NodeView<N>>,
    entries: Seq<(Seq<char>, int)>,
    more: Seq<TokenView<N>>,
)
    ensures
        match read_entries(ts, nodes, entries) {
            Reading::Done(ns, rest) => read_entries(ts + more, nodes, entries) == Reading::Done(ns, rest + more),
            Reading::Fail => read_entries(ts + more, nodes, entries) is Fail,
            Reading::More => true,
        },
    decreases ts.len(), 1nat,
{
    if ts.len() > 0 {
        assert((ts + more)[0] == ts[0]);
        if let TokenView::Str(k) = ts[0] {
            if ts.len() > 1 {
                assert((ts + more)[1] == ts[1]);
                if ts[1] is Colon {
                    assert((ts + more).skip(2) =~= ts.skip(2) + more);
                    lemma_read_value_extend(ts.skip(2), nodes, more);
                    if let Reading::Done(nodes2, rest) = read_value(ts.skip(2), nodes) {
                        if rest.len() > 0 {
                            assert((rest + more)[0] == rest[0]);
                            assert((rest + more).drop_first() =~= rest.drop_first() + more);
                            if rest[0] is Comma && rest.len() <= ts.len() {
                                lemma_read_entries_extend(
                                    rest.drop_first(),
                                    nodes2,
                                    entries.push((k, nodes2.len() - 1)),
                                    more,
                                );
                            }
                        }
                    }
                }
            }
        }
    }
}

/// Tokens that no text can start with stay so whatever follows them: the
/// text is given up at the first token that cannot continue it.
pub proof fn lemma_settle_fail_extends<N>(ts: Seq<TokenView<N>>, more: Seq<TokenView<N>>)
    requires
        settle(ts) is Fail,
    ensures
        settle(ts + more) is Fail,
{
    lemma_read_value_extend(ts, seq![], more);
}

/// Whether the node at position `i` names only nodes before it.
pub open spec fn names_earlier<N>(n: NodeView<N>, i: int) -> bool {
    match n {
        NodeView::Array(cs) => forall|k: int| 0 <= k < cs.len() ==> 0 <= #[trigger] cs[k] < i,
        NodeView::Object(es) => forall|k: int| 0 <= k < es.len() ==> 0 <= #[trigger] es[k].1 < i,
        _ => true,
    }
}

/// Every node of the list names only nodes before it.
pub open spec fn well_ordered<N>(ns: Seq<NodeView<N>>) -> bool {
    forall|i: int| 0 <= i < ns.len() ==> #[trigger] names_earlier(ns[i], i)
}

/// Reading a value adds nodes that name only nodes before them.
pub proof fn lemma_read_value_well_ordered<N>(ts: Seq<TokenView<N>>, nodes: Seq<NodeView<N>>)
    requires
        well_ordered(nodes),
    ensures
        read_value(ts, nodes) matches Reading::Done(ns, _) ==> well_ordered(ns) && ns.len()
            > nodes.len(),
    decreases ts.len(), 0nat,
{
    if ts.len() > 0 {
        let rest = ts.drop_first();
        match ts[0] {
            TokenView::LBracket => {
                if rest.len() > 0 && !(rest[0] is RBracket) {
                    lemma_read_items_well_ordered(rest, nodes, seq![]);
                }
            },
            TokenView::LBrace => {
                if rest.len() > 0 && !(rest[0] is RBrace) {
                    lemma_read_entries_well_ordered(rest, nodes, seq![]);
                }
            },
            _ => {},
        }
        let direct = match ts[0] {
            TokenView::Null | TokenView::Num(_) | TokenView::Str(_) => true,
            TokenView::LBracket => rest.len() > 0 && rest[0] is RBracket,
            TokenView::LBrace => rest.len() > 0 && rest[0] is RBrace,
            _ => false,
        };
        if direct {
            if let Reading::Done(ns, _) = read_value(ts, nodes) {
                assert forall|i: int| 0 <= i < ns.len() implies #[trigger] names_earlier(ns[i], i) by {
                    if i < nodes.len() {
                        assert(ns[i] == nodes[i]);
                    }
                }
            }
        }
    }
}

/// `lemma_read_value_well_ordered`, for the items of an array.
pub proof fn lemma_read_items_well_ordered<N>(
    ts: Seq<TokenView<N>>,
    nodes: Seq<NodeView<N>>,
    items: Seq<int>,
)
    requires
        well_ordered(nodes),
        forall|k: int| 0 <= k < items.len() ==> 0 <= #[trigger] items[k] < nodes.len(),
    ensures
        read_items(ts, nodes, items) matches Reading::Done(ns, _) ==> well_ordered(ns) && ns.len()
            > nodes.len(),
    decreases ts.len(), 1nat,
{
    lemma_read_value_well_ordered(ts, nodes);
    if let Reading::Done(nodes2, rest) = read_value(ts, nodes) {
        let items2 = items.push(nodes2.len() - 1);
        assert forall|k: int| 0 <= k < items2.len() implies 0 <= #[trigger] items2[k] < nodes2.len() by {
            if k < items.len() {
                assert(items2[k] == items[k]);
            }
        }
        if rest.len() > 0 {
            if rest[0] is Comma && rest.len() <= ts.len() {
                lemma_read_items_well_ordered(rest.drop_first(), nodes2, items2);
            } else if rest[0] is RBracket {
                let ns = nodes2.push(NodeView::Array(items2));
                assert forall|i: int| 0 <= i < ns.len() implies #[trigger] names_earlier(ns[i], i) by {
                    if i < nodes2.len() {
                        assert(ns[i] == nodes2[i]);
                    }
                }
            }
        }
    }
}

/// `lemma_read_value_well_ordered`, for the entries of an object.
pub proof fn lemma_read_entries_well_ordered<N>(
    ts: Seq<TokenView<N>>,
    nodes: Seq<NodeView<N>>,
    entries: Seq<(Seq<char>, int)>,
)
    requires
        well_ordered(nodes),
        forall|k: int| 0 <= k < entries.len() ==> 0 <= #[trigger] entries[k].1 < nodes.len(),
    ensures
        read_entries(ts, nodes, entries) matches Reading::Done(ns, _) ==> well_ordered(ns)
            && ns.len() > nodes.len(),
    decreases ts.len(), 1nat,
{
    if ts.len() > 1 {
        if let TokenView::Str(k) = ts[0] {
            if ts[1] is Colon {
                lemma_read_value_well_ordered(ts.skip(2), nodes);
                if let Reading::Done(nodes2, rest) = read_value(ts.skip(2), nodes) {
                    let entries2 = entries.push((k, nodes2.len() - 1));
                    assert forall|j: int| 0 <= j < entries2.len() implies 0 <= #[trigger] entries2[j].1
                        < nodes2.len() by {
                        if j < entries.len() {
                            assert(entries2[j] == entries[j]);
                        }
                    }
                    if rest.len() > 0 {
                        if rest[0] is Comma && rest.len() <= ts.len() {
                            lemma_read_entries_well_ordered(rest.drop_first(), nodes2, entries2);
                        } else if rest[0] is RBrace {
                            let ns = nodes2.push(NodeView::Object(entries2));
                            assert forall|i: int| 0 <= i < ns.len() implies #[trigger] names_earlier(
                                ns[i],
                                i,
                            ) by {
                                if i < nodes2.len() {
                                    assert(ns[i] == nodes2[i]);
                                }
                            }
                        }
                    }
                }
            }
        }
    }
}

/// A decoded document is not empty, and each of its nodes names only
/// nodes before it: the value's own node, the last, holds all the others.
pub proof fn lemma_decoded_well_ordered<N>(items: Seq<Lexed<N>>)
    ensures
        decoded(items) matches Outcome::Value(ns) ==> well_ordered(ns) && ns.len() > 0,
{
    lemma_decode_from_well_ordered(items, 0, seq![], 1);
}

proof fn lemma_decode_from_well_ordered<N>(items: Seq<Lexed<N>>, i: nat, ts: Seq<TokenView<N>>, line: nat)
    ensures
        decode_from(items, i, ts, line) matches Outcome::Value(ns) ==> well_ordered(ns) && ns.len()
            > 0,
    decreases items.len() - i,
{
    if i >= items.len() {
        assert(well_ordered(Seq::<NodeView<N>>::empty()));
        lemma_read_value_well_ordered(ts, seq![]);
    } else {
        match items[i as int] {
            Lexed::Tok(t) => lemma_decode_from_well_ordered(items, i + 1, ts.push(t.view()), line),
            Lexed::Line => lemma_decode_from_well_ordered(items, i + 1, ts, line + 1),
            _ => {},
        }
    }
}

/// How far reading a value from a position got: done, with the position
/// after it; the tokens ended first; or they cannot be read as one.
enum Step {
    Done(usize),
    More,
    Fail,
}

fn push_node<N>(nodes: &mut Vec<JsonNode<N>>, n: JsonNode<N>)
    ensures
        node_views(final(nodes)@) == node_views(old(nodes)@).push(n.view()),
        final(nodes)@.len() == old(nodes)@.len() + 1,
{
    let ghost n0 = n.view();
    nodes.push(n);
    assert(node_views(nodes@) =~= node_views(old(nodes)@).push(n0));
}

/// The positions of the items, as the specification sees them.
pub open spec fn item_views(items: Seq<usize>) -> Seq<int> {
    items.map_values(|i: usize| i as int)
}

/// The keys and positions of the entries, as the specification sees them.
pub open spec fn entry_views(entries: Seq<(String, usize)>) -> Seq<(Seq<char>, int)> {
    entries.map_values(|e: (String, usize)| (e.0@, e.1 as int))
}

fn read_value_at<N: Copy>(ts: &Vec<Token<N>>, pos: usize, nodes: &mut Vec<JsonNode<N>>) -> (r: Step)
    requires
        pos <= ts@.len(),
    ensures
        match read_value(token_views(ts@).skip(pos as int), node_views(old(nodes)@)) {
            Reading::Done(ns, rest) => {
                &&& r matches Step::Done(p)
                &&& pos < p <= ts@.len()
                &&& rest == token_views(ts@).skip(p as int)
                &&& node_views(final(nodes)@) == ns
                &&& final(nodes)@.len() > old(nodes)@.len()
            },
            Reading::More => r is More,
            Reading::Fail => r is Fail,
        },
    decreases ts@.len() - pos, 0nat,
{
    let ghost tv = token_views(ts@);
    if pos == ts.len() {
        return Step::More;
    }
    proof {
        assert(tv.skip(pos as int)[0] == ts@[pos as int].view());
        assert(tv.skip(pos as int).drop_first() =~= tv.skip(pos + 1));
    }
    match &ts[pos] {
        Token::Null => {
            push_node(nodes, JsonNode::Null);
            Step::Done(pos + 1)
        },
        Token::Num(n) => {
            push_node(nodes, JsonNode::Num(*n));
            Step::Done(pos + 1)
        },
        Token::String(s) => {
            push_node(nodes, JsonNode::Str(s.clone()));
            Step::Done(pos + 1)
        },
        Token::LBracket => {
            if pos + 1 == ts.len() {
                return Step::More;
            }
            proof {
                assert(tv.skip(pos + 1)[0] == ts@[pos + 1].view());
                assert(tv.skip(pos + 1).drop_first() =~= tv.skip(pos + 2));
            }
            match &ts[pos + 1] {
                Token::RBracket => {
                    let empty: Vec<usize> = Vec::new();
                    assert(item_views(empty@) =~= seq![]);
                    push_node(nodes, JsonNode::Array(empty));
                    Step::Done(pos + 2)
                },
                _ => {
                    let items: Vec<usize> = Vec::new();
                    assert(item_views(items@) =~= seq![]);
                    read_items_at(ts, pos + 1, nodes, items)
                },
            }
        },
        Token::LBrace => {
            if pos + 1 == ts.len() {
                return Step::More;
            }
            proof {
                assert(tv.skip(pos + 1)[0] == ts@[pos + 1].view());
                assert(tv.skip(pos + 1).drop_first() =~= tv.skip(pos + 2));
            }
            match &ts[pos + 1] {
                Token::RBrace => {
                    let empty: Vec<(String, usize)> = Vec::new();
                    assert(entry_views(empty@) =~= seq![]);
                    push_node(nodes, JsonNode::Object(empty));
                    Step::Done(pos + 2)
                },
                _ => {
                    let entries: Vec<(String, usize)> = Vec::new();
                    assert(entry_views(entries@) =~= seq![]);
                    read_entries_at(ts, pos + 1, nodes, entries)
                },
            }
        },
        _ => Step::Fail,
    }
}

fn read_items_at<N: Copy>(
    ts: &Vec<Token<N>>,
    pos: usize,
    nodes: &mut Vec<JsonNode<N>>,
    items: Vec<usize>,
) -> (r: Step)
    requires
        pos <= ts@.len(),
    ensures
        match read_items(token_views(ts@).skip(pos as int), node_views(old(nodes)@), item_views(items@)) {
            Reading::Done(ns, rest) => {
                &&& r matches Step::Done(p)
                &&& pos < p <= ts@.len()
                &&& rest == token_views(ts@).skip(p as int)
                &&& node_views(final(nodes)@) == ns
                &&& final(nodes)@.len() > old(nodes)@.len()
            },
            Reading::More => r is More,
            Reading::Fail => r is Fail,
        },
    decreases ts@.len() - pos, 1nat,
{
    let ghost tv = token_views(ts@);
    match read_value_at(ts, pos, nodes) {
        Step::Done(p) => {
            let root = nodes.len() - 1;
            let mut items = items;
            let ghost iv = item_views(items@);
            items.push(root);
            assert(item_views(items@) =~= iv.push(root as int));
            if p == ts.len() {
                return Step::More;
            }
            proof {
                assert(tv.skip(p as int)[0] == ts@[p as int].view());
                assert(tv.skip(p as int).drop_first() =~= tv.skip(p + 1));
            }
            match &ts[p] {
                Token::Comma => read_items_at(ts, p + 1, nodes, items),
                Token::RBracket => {
                    push_node(nodes, JsonNode::Array(items));
                    Step::Done(p + 1)
                },
                _ => Step::Fail,
            }
        },
        Step::More => Step::More,
        Step::Fail => Step::Fail,
    }
}

fn read_entries_at<N: Copy>(
    ts: &Vec<Token<N>>,
    pos: usize,
    nodes: &mut Vec<JsonNode<N>>,
    entries: Vec<(String, usize)>,
) -> (r: Step)
    requires
        pos <= ts@.len(),
    ensures
        match read_entries(
            token_views(ts@).skip(pos as int),
            node_views(old(nodes)@),
            entry_views(entries@),
        ) {
            Reading::Done(ns, rest) => {
                &&& r matches Step::Done(p)
                &&& pos < p <= ts@.len()
                &&& rest == token_views(ts@).skip(p as int)
                &&& node_views(final(nodes)@) == ns
                &&& final(nodes)@.len() > old(nodes)@.len()
            },
            Reading::More => r is More,
            Reading::Fail => r is Fail,
        },
    decreases ts@.len() - pos, 1nat,
{
    let ghost tv = token_views(ts@);
    if pos == ts.len() {
        return Step::More;
    }
    proof {
        assert(tv.skip(pos as int)[0] == ts@[pos as int].view());
    }
    match &ts[pos] {
        Token::String(k) => {
            if pos + 1 == ts.len() {
                return Step::More;
            }
            proof {
                assert(tv.skip(pos as int)[1] == ts@[pos + 1].view());
                assert(tv.skip(pos as int).skip(2) =~= tv.skip(pos + 2));
            }
            match &ts[pos + 1] {
                Token::Colon => {
                    match read_value_at(ts, pos + 2, nodes) {
                        Step::Done(p) => {
                            let root = nodes.len() - 1;
                            let mut entries = entries;
                            let ghost ev = entry_views(entries@);
                            entries.push((k.clone(), root));
                            assert(entry_views(entries@) =~= ev.push((k@, root as int)));
                            if p == ts.len() {
                                return Step::More;
                            }
                            proof {
                                assert(tv.skip(p as int)[0] == ts@[p as int].view());
                                assert(tv.skip(p as int).drop_first() =~= tv.skip(p + 1));
                            }
                            match &ts[p] {
                                Token::Comma => read_entries_at(ts, p + 1, nodes, entries),
                                Token::RBrace => {
                                    push_node(nodes, JsonNode::Object(entries));
                                    Step::Done(p + 1)
                                },
                                _ => Step::Fail,
                            }
                        },
                        Step::More => Step::More,
                        Step::Fail => Step::Fail,
                    }
                },
                _ => Step::Fail,
            }
        },
        _ => Step::Fail,
    }
}

/// An item of JSON text, as the lexer of the language gives it: a token
/// that JSON knows, a line break, a token of the language that JSON does
/// not know, or text that is no token at all.
#[derive(Debug, Clone)]
pub enum Lexed<N> {
    Tok(Token<N>),
    Line,
    Foreign,
    Unknown,
}

/// What decoding JSON text gives: a document (its nodes, the value's own
/// node last); null (no value, a syntax error, or a token that JSON does
/// not know); text that is no token, at the item `index` on line `line`;
/// or the end of the text inside a value, on line `line`.
#[derive(Debug, Clone, PartialEq)]
pub enum Decoded<N> {
    Value(Vec<JsonNode<N>>),
    Null,
    Unknown { index: usize, line: usize },
    Incomplete { line: usize },
}

/// What decoding gives, as the specification sees it.
pub enum Outcome<N> {
    Value(Seq<NodeView<N>>),
    Null,
    Unknown(nat, nat),
    Incomplete(nat),
}

impl<N> Decoded<N> {
    pub open spec fn view(&self) -> Outcome<N> {
        match self {
            Decoded::Value(v) => Outcome::Value(node_views(v@)),
            Decoded::Null => Outcome::Null,
            Decoded::Unknown { index, line } => Outcome::Unknown(*index as nat, *line as nat),
            Decoded::Incomplete { line } => Outcome::Incomplete(*line as nat),
        }
    }
}

/// How the tokens read as a whole text: none; one whole value; the start
/// of a value; or something that no text can start with.
pub enum Settled<N> {
    Empty,
    Value(Seq<NodeView<N>>),
    More,
    Fail,
}

pub open spec fn settle<N>(ts: Seq<TokenView<N>>) -> Settled<N> {
    if ts.len() == 0 {
        Settled::Empty
    } else {
        match read_value(ts, seq![]) {
            Reading::Done(ns, rest) => if rest.len() == 0 {
                Settled::Value(ns)
            } else {
                Settled::Fail
            },
            Reading::More => Settled::More,
            Reading::Fail => Settled::Fail,
        }
    }
}

/// Decoding the items from `i` on, the tokens `ts` having been read before
/// and `line` being the current line: the tokens are read in order; a line
/// break moves to the next line; a token that JSON does not know makes the
/// value null; text that is no token is an error unless the tokens before
/// it could not start a text (the value is then null). At the end, the
/// tokens must be one whole value.
pub open spec fn decode_from<N>(items: Seq<Lexed<N>>, i: nat, ts: Seq<TokenView<N>>, line: nat) -> Outcome<N>
    decreases items.len() - i,
{
    if i >= items.len() {
        match settle(ts) {
            Settled::Value(ns) => Outcome::Value(ns),
            Settled::More => Outcome::Incomplete(line),
            _ => Outcome::Null,
        }
    } else {
        match items[i as int] {
            Lexed::Tok(t) => decode_from(items, i + 1, ts.push(t.view()), line),
            Lexed::Line => decode_from(items, i + 1, ts, line + 1),
            Lexed::Foreign => Outcome::Null,
            Lexed::Unknown => if settle(ts) is Fail {
                Outcome::Null
            } else {
                Outcome::Unknown(i, line)
            },
        }
    }
}

/// What decoding the items of a whole text gives, from line 1.
pub open spec fn decoded<N>(items: Seq<Lexed<N>>) -> Outcome<N> {
    decode_from(items, 0, seq![], 1)
}

fn copy_token<N: Copy>(t: &Token<N>) -> (r: Token<N>)
    ensures
        r.view() == t.view(),
{
    match t {
        Token::Null => Token::Null,
        Token::Num(n) => Token::Num(*n),
        Token::String(s) => Token::String(s.clone()),
        Token::Bool(b) => Token::Bool(*b),
        Token::LBrace => Token::LBrace,
        Token::RBrace => Token::RBrace,
        Token::LBracket => Token::LBracket,
        Token::RBracket => Token::RBracket,
        Token::Comma => Token::Comma,
        Token::Colon => Token::Colon,
    }
}

/// How the tokens read as a whole text, with the document when they are
/// one value.
enum Whole<N> {
    Empty,
    Value(Vec<JsonNode<N>>),
    More,
    Fail,
}

/// Reads the tokens as a whole text (see `settle`).
fn settle_tokens<N: Copy>(ts: &Vec<Token<N>>) -> (r: Whole<N>)
    ensures
        match settle(token_views(ts@)) {
            Settled::Empty => r is Empty,
            Settled::Value(ns) => r matches Whole::Value(v) && node_views(v@) == ns,
            Settled::More => r is More,
            Settled::Fail => r is Fail,
        },
{
    let mut nodes: Vec<JsonNode<N>> = Vec::new();
    if ts.len() == 0 {
        return Whole::Empty;
    }
    assert(token_views(ts@).skip(0) =~= token_views(ts@));
    assert(node_views(nodes@) =~= seq![]);
    match read_value_at(ts, 0, &mut nodes) {
        Step::Done(p) => {
            if p == ts.len() {
                Whole::Value(nodes)
            } else {
                Whole::Fail
            }
        },
        Step::More => Whole::More,
        Step::Fail => Whole::Fail,
    }
}

/// Decodes JSON text from the items its lexing gave (see `decoded`).
pub fn decode<N: Copy>(items: &Vec<Lexed<N>>) -> (r: Decoded<N>)
    requires
        items@.len() < usize::MAX,
    ensures
        r.view() == decoded(items@),
{
    let n = items.len();
    let mut toks: Vec<Token<N>> = Vec::new();
    let mut line: usize = 1;
    let mut i: usize = 0;
    assert(token_views(toks@) =~= seq![]);
    while i < n
        invariant
            n == items@.len(),
            n < usize::MAX,
            i <= n,
            line <= i + 1,
            decoded(items@) == decode_from(items@, i as nat, token_views(toks@), line as nat),
        decreases n - i,
    {
        match &items[i] {
            Lexed::Tok(t) => {
                let ghost before = token_views(toks@);
                toks.push(copy_token(t));
                assert(token_views(toks@) =~= before.push(t.view()));
            },
            Lexed::Line => {
                line = line + 1;
            },
            Lexed::Foreign => {
                return Decoded::Null;
            },
            Lexed::Unknown => {
                return match settle_tokens(&toks) {
                    Whole::Fail => Decoded::Null,
                    _ => Decoded::Unknown { index: i, line },
                };
            },
        }
        i = i + 1;
    }
    match settle_tokens(&toks) {
        Whole::Value(nodes) => Decoded::Value(nodes),
        Whole::More => Decoded::Incomplete { line },
        _ => Decoded::Null,
    }
}

} // verus!
