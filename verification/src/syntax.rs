//! The concrete syntax tree that lints inspect.
//!
//! A tree is a vector of nodes numbered in preorder: node 0 is the root,
//! each node records its parent and its children (in source order), the
//! field name under which it appears in its parent, its kind, and its byte
//! and row/column range in the source.
use vstd::prelude::*;
use crate::diagnostics::{Position, Span};
use crate::text::{
    char_idx, char_index_of_byte, chars_of, is_boundary_at, is_char_boundary,
    lemma_boundary_unique, str_eq, string_from_chars, string_of,
};

verus! {

/// One node of a syntax tree.
#[derive(Debug, Clone)]
pub struct NodeData {
    pub kind: String,
    pub named: bool,
    /// The field name under which this node appears in its parent.
    pub field: Option<String>,
    pub start_byte: usize,
    pub end_byte: usize,
    /// 0-based row and column of the first byte.
    pub start_row: usize,
    pub start_column: usize,
    /// 0-based row and column just past the last byte.
    pub end_row: usize,
    pub end_column: usize,
    pub parent: Option<usize>,
    pub children: Vec<usize>,
}

/// A node as plain values.
pub struct NodeView {
    pub kind: Seq<char>,
    pub named: bool,
    pub field: Option<Seq<char>>,
    pub start_byte: usize,
    pub end_byte: usize,
    pub start_row: usize,
    pub start_column: usize,
    pub end_row: usize,
    pub end_column: usize,
    pub parent: Option<usize>,
    pub children: Seq<usize>,
}

impl View for NodeData {
    type V = NodeView;

    open spec fn view(&self) -> NodeView {
        NodeView {
            kind: self.kind@,
            named: self.named,
            field: match self.field {
                Some(f) => Some(f@),
                None => None,
            },
            start_byte: self.start_byte,
            end_byte: self.end_byte,
            start_row: self.start_row,
            start_column: self.start_column,
            end_row: self.end_row,
            end_column: self.end_column,
            parent: self.parent,
            children: self.children@,
        }
    }
}

pub open spec fn node_views(v: Seq<NodeData>) -> Seq<NodeView> {
    v.map_values(|n: NodeData| n@)
}

/// The nodes form a tree numbered in preorder.
pub open spec fn wf_nodes(ns: Seq<NodeView>) -> bool {
    &&& ns.len() > 0
    &&& ns[0].parent is None
    &&& forall|i: int|
        #![trigger ns[i]]
        0 <= i < ns.len() ==> {
            &&& (i > 0 ==> (ns[i].parent matches Some(p) && p < i))
            &&& ns[i].start_row < usize::MAX
            &&& ns[i].start_column < usize::MAX
            &&& ns[i].end_row < usize::MAX
            &&& ns[i].end_column < usize::MAX
            &&& forall|j: int|
                #![trigger ns[i].children[j]]
                0 <= j < ns[i].children.len() ==> i < ns[i].children[j] < ns.len() && ns[ns[i].children[j] as int].parent == Some(i as usize)
            &&& forall|j: int, k: int|
                #![trigger ns[i].children[j], ns[i].children[k]]
                0 <= j < k < ns[i].children.len() ==> ns[i].children[j] < ns[i].children[k]
        }
}

/// A syntax tree.
#[derive(Debug)]
pub struct SyntaxTree {
    nodes: Vec<NodeData>,
}

impl View for SyntaxTree {
    type V = Seq<NodeView>;

    closed spec fn view(&self) -> Seq<NodeView> {
        node_views(self.nodes@)
    }
}

/// The text of a node: its byte range, when both ends are char boundaries.
pub open spec fn text_of(src: Seq<char>, start: usize, end: usize) -> Seq<char> {
    if start <= end && is_char_boundary(src, start as int) && is_char_boundary(src, end as int) {
        src.subrange(char_idx(src, start as int), char_idx(src, end as int))
    } else {
        Seq::empty()
    }
}

/// The span of a node (1-based).
pub open spec fn span_of(n: NodeView) -> Span {
    Span {
        start: Position { row: (n.start_row + 1) as usize, column: (n.start_column + 1) as usize },
        end: Position { row: (n.end_row + 1) as usize, column: (n.end_column + 1) as usize },
    }
}

/// The first child of `n` whose field name is `name`.
pub open spec fn field_child_from(ns: Seq<NodeView>, n: int, name: Seq<char>, j: int) -> Option<usize>
    decreases ns[n].children.len() - j,
{
    if j < 0 || j >= ns[n].children.len() {
        None
    } else if ns[ns[n].children[j] as int].field == Some(name) {
        Some(ns[n].children[j])
    } else {
        field_child_from(ns, n, name, j + 1)
    }
}

/// The first named child of `p` at position `j` or later.
pub open spec fn first_named_from(ns: Seq<NodeView>, p: int, j: int) -> Option<int>
    decreases ns[p].children.len() - j,
{
    if j < 0 || j >= ns[p].children.len() {
        None
    } else if ns[ns[p].children[j] as int].named {
        Some(ns[p].children[j] as int)
    } else {
        first_named_from(ns, p, j + 1)
    }
}

/// The last named child of `p` among its first `j` children.
pub open spec fn last_named_before(ns: Seq<NodeView>, p: int, j: int) -> Option<int>
    decreases j,
{
    if j <= 0 || j > ns[p].children.len() {
        None
    } else if ns[ns[p].children[j - 1] as int].named {
        Some(ns[p].children[j - 1] as int)
    } else {
        last_named_before(ns, p, j - 1)
    }
}

/// The position of `c` among its parent's children.
pub open spec fn sibling_index(ns: Seq<NodeView>, c: int) -> Option<int> {
    match ns[c].parent {
        Some(p) => if exists|j: int| 0 <= j < ns[p as int].children.len() && ns[p as int].children[j] == c {
            Some(choose|j: int| 0 <= j < ns[p as int].children.len() && ns[p as int].children[j] == c)
        } else {
            None
        },
        None => None,
    }
}

impl SyntaxTree {
    #[verifier::type_invariant]
    closed spec fn inv(&self) -> bool {
        wf_nodes(node_views(self.nodes@))
    }

    /// Checks that `nodes` form a tree numbered in preorder.
    pub fn from_nodes(nodes: Vec<NodeData>) -> (r: Option<Self>)
        ensures
            r matches Some(t) ==> t@ == node_views(nodes@),
            r is None <==> !wf_nodes(node_views(nodes@)),
    {
        let ghost ns = node_views(nodes@);
        if nodes.len() == 0 {
            return None;
        }
        if nodes[0].parent.is_some() {
            assert(ns[0] == nodes@[0]@);
            return None;
        }
        let mut i: usize = 0;
        while i < nodes.len()
            invariant
                0 < nodes@.len(),
                i <= nodes@.len(),
                ns == node_views(nodes@),
                ns[0].parent is None,
                forall|t: int|
                    #![trigger ns[t]]
                    0 <= t < i ==> {
                        &&& (t > 0 ==> (ns[t].parent matches Some(p) && p < t))
                        &&& ns[t].start_row < usize::MAX
                        &&& ns[t].start_column < usize::MAX
                        &&& ns[t].end_row < usize::MAX
                        &&& ns[t].end_column < usize::MAX
                        &&& forall|j: int|
                            #![trigger ns[t].children[j]]
                            0 <= j < ns[t].children.len() ==> t < ns[t].children[j] < ns.len()
                                && ns[ns[t].children[j] as int].parent == Some(t as usize)
                        &&& forall|j: int, k: int|
                            #![trigger ns[t].children[j], ns[t].children[k]]
                            0 <= j < k < ns[t].children.len() ==> ns[t].children[j]
                                < ns[t].children[k]
                    },
            decreases nodes.len() - i,
        {
            let n = &nodes[i];
            assert(ns[i as int] == n@);
            if i > 0 {
                match n.parent {
                    Some(p) => {
                        if p >= i {
                            return None;
                        }
                    },
                    None => {
                        return None;
                    },
                }
            }
            if n.start_row == usize::MAX || n.start_column == usize::MAX || n.end_row == usize::MAX
                || n.end_column == usize::MAX {
                return None;
            }
            let mut j: usize = 0;
            while j < n.children.len()
                invariant
                    i < nodes@.len(),
                    n == &nodes@[i as int],
                    ns == node_views(nodes@),
                    ns[i as int] == n@,
                    j <= n.children@.len(),
                    forall|a: int|
                        #![trigger n.children@[a]]
                        0 <= a < j ==> i < n.children@[a] < ns.len() && ns[n.children@[a] as int].parent
                            == Some(i),
                    forall|a: int, b: int|
                        #![trigger n.children@[a], n.children@[b]]
                        0 <= a < b < j ==> n.children@[a] < n.children@[b],
                decreases n.children.len() - j,
            {
                let c = n.children[j];
                assert(ns[i as int].children[j as int] == c);
                if c <= i || c >= nodes.len() {
                    return None;
                }
                assert(ns[c as int] == nodes@[c as int]@);
                match nodes[c].parent {
                    Some(p) => {
                        if p != i {
                            return None;
                        }
                    },
                    None => {
                        return None;
                    },
                }
                if j > 0 && n.children[j - 1] >= c {
                    return None;
                }
                j = j + 1;
            }
            i = i + 1;
        }
        Some(SyntaxTree { nodes })
    }

    /// Number of nodes.
    pub fn len(&self) -> (r: usize)
        ensures
            r == self@.len(),
    {
        self.nodes.len()
    }

    /// The root is node 0, and the nodes form a tree numbered in preorder.
    pub fn ensure_wf(&self)
        ensures
            wf_nodes(self@),
    {
        proof {
            use_type_invariant(self);
        }
    }

    pub fn kind(&self, i: usize) -> (r: &str)
        requires
            i < self@.len(),
        ensures
            r@ == self@[i as int].kind,
    {
        self.nodes[i].kind.as_str()
    }

    pub fn is_kind(&self, i: usize, kind: &str) -> (b: bool)
        requires
            i < self@.len(),
        ensures
            b == (self@[i as int].kind == kind@),
    {
        str_eq(self.nodes[i].kind.as_str(), kind)
    }

    pub fn start_byte(&self, i: usize) -> (r: usize)
        requires
            i < self@.len(),
        ensures
            r == self@[i as int].start_byte,
    {
        self.nodes[i].start_byte
    }

    pub fn end_byte(&self, i: usize) -> (r: usize)
        requires
            i < self@.len(),
        ensures
            r == self@[i as int].end_byte,
    {
        self.nodes[i].end_byte
    }

    pub fn parent(&self, i: usize) -> (r: Option<usize>)
        requires
            i < self@.len(),
        ensures
            r == self@[i as int].parent,
            r matches Some(p) ==> p < i,
            r is None ==> i == 0,
    {
        proof {
            use_type_invariant(self);
            assert(self@[i as int] == self.nodes@[i as int]@);
        }
        self.nodes[i].parent
    }

    pub fn children(&self, i: usize) -> (r: &Vec<usize>)
        requires
            i < self@.len(),
        ensures
            r@ == self@[i as int].children,
            forall|j: int| 0 <= j < r@.len() ==> i < #[trigger] r@[j] < self@.len(),
    {
        proof {
            use_type_invariant(self);
            assert(self@[i as int] == self.nodes@[i as int]@);
            assert forall|j: int| 0 <= j < self.nodes@[i as int].children@.len() implies i
                < #[trigger] self.nodes@[i as int].children@[j] < self@.len() by {
                assert(self@[i as int].children[j] == self.nodes@[i as int].children@[j]);
            }
        }
        &self.nodes[i].children
    }

    pub fn is_named(&self, i: usize) -> (b: bool)
        requires
            i < self@.len(),
        ensures
            b == self@[i as int].named,
    {
        self.nodes[i].named
    }

    /// The span of node `i`.
    pub fn span(&self, i: usize) -> (r: Span)
        requires
            i < self@.len(),
        ensures
            r == span_of(self@[i as int]),
    {
        proof {
            use_type_invariant(self);
            assert(self@[i as int] == self.nodes@[i as int]@);
        }
        let n = &self.nodes[i];
        Span::from_points(n.start_row, n.start_column, n.end_row, n.end_column)
    }

    /// The first child of node `i` under field `name`.
    pub fn child_by_field_name(&self, i: usize, name: &str) -> (r: Option<usize>)
        requires
            i < self@.len(),
        ensures
            r == field_child_from(self@, i as int, name@, 0),
            r matches Some(c) ==> i < c < self@.len(),
    {
        let cs = self.children(i);
        let mut j: usize = 0;
        while j < cs.len()
            invariant
                i < self@.len(),
                cs@ == self@[i as int].children,
                forall|t: int| 0 <= t < cs@.len() ==> i < #[trigger] cs@[t] < self@.len(),
                j <= cs@.len(),
                field_child_from(self@, i as int, name@, 0) == field_child_from(
                    self@,
                    i as int,
                    name@,
                    j as int,
                ),
            decreases cs.len() - j,
        {
            let c = cs[j];
            assert(self@[c as int] == self.nodes@[c as int]@);
            let hit = match &self.nodes[c].field {
                Some(f) => str_eq(f.as_str(), name),
                None => false,
            };
            if hit {
                return Some(c);
            }
            j = j + 1;
        }
        None
    }

    /// The first named child of node `i`.
    pub fn first_named_child(&self, i: usize) -> (r: Option<usize>)
        requires
            i < self@.len(),
        ensures
            match r {
                Some(c) => first_named_from(self@, i as int, 0) == Some(c as int) && i < c < self@.len(),
                None => first_named_from(self@, i as int, 0) is None,
            },
    {
        let cs = self.children(i);
        let mut j: usize = 0;
        while j < cs.len()
            invariant
                i < self@.len(),
                cs@ == self@[i as int].children,
                forall|t: int| 0 <= t < cs@.len() ==> i < #[trigger] cs@[t] < self@.len(),
                j <= cs@.len(),
                first_named_from(self@, i as int, 0) == first_named_from(self@, i as int, j as int),
            decreases cs.len() - j,
        {
            if self.is_named(cs[j]) {
                return Some(cs[j]);
            }
            j = j + 1;
        }
        None
    }

    /// The last named child of node `i`.
    pub fn last_named_child(&self, i: usize) -> (r: Option<usize>)
        requires
            i < self@.len(),
        ensures
            match r {
                Some(c) => last_named_before(self@, i as int, self@[i as int].children.len() as int) == Some(c as int)
                    && i < c < self@.len(),
                None => last_named_before(self@, i as int, self@[i as int].children.len() as int) is None,
            },
    {
        let cs = self.children(i);
        let mut j: usize = cs.len();
        while j > 0
            invariant
                i < self@.len(),
                cs@ == self@[i as int].children,
                forall|t: int| 0 <= t < cs@.len() ==> i < #[trigger] cs@[t] < self@.len(),
                j <= cs@.len(),
                last_named_before(self@, i as int, cs@.len() as int) == last_named_before(self@, i as int, j as int),
            decreases j,
        {
            if self.is_named(cs[j - 1]) {
                return Some(cs[j - 1]);
            }
            j = j - 1;
        }
        None
    }

    /// Node `i`'s parent and its position among the parent's children.
    pub fn sibling_position(&self, i: usize) -> (r: Option<(usize, usize)>)
        requires
            i < self@.len(),
        ensures
            r matches Some((p, j)) ==> self@[i as int].parent == Some(p) && p < self@.len() && j
                < self@[p as int].children.len() && self@[p as int].children[j as int] == i
                && sibling_index(self@, i as int) == Some(j as int),
            r is None ==> sibling_index(self@, i as int) is None,
    {
        proof {
            use_type_invariant(self);
        }
        match self.parent(i) {
            None => None,
            Some(p) => {
                let cs = self.children(p);
                let mut j: usize = 0;
                while j < cs.len()
                    invariant
                        i < self@.len(),
                        p < i,
                        self@[i as int].parent == Some(p),
                        cs@ == self@[p as int].children,
                        j <= cs@.len(),
                        forall|t: int| 0 <= t < j ==> cs@[t] != i,
                    decreases cs.len() - j,
                {
                    if cs[j] == i {
                        proof {
                            use_type_invariant(self);
                            let k = choose|k: int| 0 <= k < cs@.len() && cs@[k] == i;
                            assert(self@[p as int].children[j as int] == i);
                            if k != j {
                                if k < j {
                                    assert(self@[p as int].children[k] < self@[p as int].children[j as int]);
                                } else {
                                    assert(self@[p as int].children[j as int] < self@[p as int].children[k]);
                                }
                            }
                        }
                        return Some((p, j));
                    }
                    j = j + 1;
                }
                None
            },
        }
    }

    /// The text of node `i` in `source` (empty when its range does not fall on char boundaries).
    pub fn text(&self, source: &SourceText, i: usize) -> (r: String)
        requires
            i < self@.len(),
        ensures
            r@ == text_of(source@, self@[i as int].start_byte, self@[i as int].end_byte),
    {
        source.slice(self.nodes[i].start_byte, self.nodes[i].end_byte)
    }
}

/// Source text prepared for slicing by byte ranges.
#[derive(Debug)]
pub struct SourceText {
    chars: Vec<char>,
}

impl View for SourceText {
    type V = Seq<char>;

    closed spec fn view(&self) -> Seq<char> {
        self.chars@
    }
}

impl SourceText {
    pub fn new(source: &str) -> (r: Self)
        ensures
            r@ == source@,
    {
        SourceText { chars: chars_of(source) }
    }

    /// The whole text.
    pub fn full_text(&self) -> (r: String)
        ensures
            r@ == self@,
    {
        string_from_chars(&self.chars)
    }

    /// Whether byte offset `b` is a char boundary (`str::is_char_boundary`).
    pub fn is_char_boundary(&self, b: usize) -> (r: bool)
        ensures
            r == is_char_boundary(self@, b as int),
    {
        char_index_of_byte(&self.chars, b).is_some()
    }

    /// `source.get(start..end)`, or the empty string when that is `None`.
    pub fn slice(&self, start: usize, end: usize) -> (r: String)
        ensures
            r@ == text_of(self@, start, end),
    {
        if start > end {
            return String::new();
        }
        let a = char_index_of_byte(&self.chars, start);
        let b = char_index_of_byte(&self.chars, end);
        match (a, b) {
            (Some(a), Some(b)) => {
                proof {
                    lemma_boundary_unique(self.chars@, a as int, char_idx(self.chars@, start as int), start as int);
                    lemma_boundary_unique(self.chars@, b as int, char_idx(self.chars@, end as int), end as int);
                    if a > b {
                        crate::text::lemma_byte_len_take_mono(self.chars@, b as int, a as int);
                    }
                }
                string_of(&self.chars, a, b)
            },
            _ => String::new(),
        }
    }
}

} // verus!
