//! Syntax tree nodes, as the external parser hands them to the evaluator.

use vstd::prelude::*;

verus! {

broadcast use vstd::std_specs::vec::group_vec_axioms, vstd::seq::group_seq_axioms;

/// Abstract form of a syntax node: strings become character sequences and
/// lists become sequences of abstract nodes. Contracts speak of this form.
#[verifier::ext_equal]
pub enum NodeV {
    Identifier(Seq<char>),
    List(Seq<NodeV>),
    StringLiteral(Seq<char>),
    IntegerLiteral(i32),
    Quote(Box<NodeV>),
}

/// A parsed syntax node. Immutable once built: the evaluator only reads it.
#[derive(Debug)]
pub enum Node {
    Identifier(String),
    List(Vec<Node>),
    StringLiteral(String),
    IntegerLiteral(i32),
    Quote(Box<Node>),
}

impl View for Node {
    type V = NodeV;

    open spec fn view(&self) -> NodeV
        decreases self,
    {
        match self {
            Node::Identifier(s) => NodeV::Identifier(s@),
            Node::List(items) => NodeV::List(list_view(items@)),
            Node::StringLiteral(s) => NodeV::StringLiteral(s@),
            Node::IntegerLiteral(i) => NodeV::IntegerLiteral(*i),
            Node::Quote(b) => NodeV::Quote(Box::new((**b)@)),
        }
    }
}

/// The abstract form of a sequence of nodes, built back to front; the
/// shape the recursion in `Node::view` takes.
pub open spec fn list_view(s: Seq<Node>) -> Seq<NodeV>
    decreases s,
{
    if s.len() == 0 {
        Seq::empty()
    } else {
        list_view(s.drop_last()).push(s.last()@)
    }
}

/// The abstract form of a sequence of nodes, elementwise.
pub open spec fn nodes_view(s: Seq<Node>) -> Seq<NodeV> {
    Seq::new(s.len(), |i: int| s[i]@)
}

/// The two readings agree: the recursive form is the elementwise one.
pub proof fn lemma_list_view(s: Seq<Node>)
    ensures
        list_view(s) == nodes_view(s),
    decreases s.len(),
{
    assert(nodes_view(s).len() == s.len());
    if s.len() == 0 {
        assert(list_view(s).len() == 0);
        assert(list_view(s) =~= nodes_view(s));
    } else {
        let d = s.drop_last();
        lemma_list_view(d);
        assert(list_view(s) == list_view(d).push(s.last()@));
        assert forall|i: int| 0 <= i < s.len() implies list_view(s)[i]
            == nodes_view(s)[i] by {
            if i < s.len() - 1 {
                assert(list_view(s)[i] == nodes_view(d)[i]);
                assert(nodes_view(d)[i] == d[i]@);
                assert(d[i] == s[i]);
            }
        }
        assert(list_view(s) =~= nodes_view(s));
    }
}

/// The number of nodes in a tree; a measure for recursion over syntax.
pub open spec fn size_of(n: NodeV) -> nat
    decreases n,
{
    match n {
        NodeV::List(items) => 1 + seq_size(items),
        NodeV::Quote(b) => 1 + size_of(*b),
        _ => 1,
    }
}

/// The combined size of a sequence of trees.
pub open spec fn seq_size(s: Seq<NodeV>) -> nat
    decreases s,
{
    if s.len() == 0 {
        0
    } else {
        seq_size(s.drop_last()) + size_of(s.last())
    }
}

/// Each element of a sequence is at most the sequence's combined size.
pub proof fn lemma_seq_size_bound(s: Seq<NodeV>, i: int)
    requires
        0 <= i < s.len(),
    ensures
        size_of(s[i]) <= seq_size(s),
    decreases s.len(),
{
    if i < s.len() - 1 {
        lemma_seq_size_bound(s.drop_last(), i);
    }
}

impl Node {
    /// Structural copy: the copy has the same abstract form as the original.
    pub fn duplicate(&self) -> (r: Node)
        ensures
            r@ == self@,
        decreases size_of(self@),
    {
        match self {
            Node::Identifier(s) => Node::Identifier(s.clone()),
            Node::StringLiteral(s) => Node::StringLiteral(s.clone()),
            Node::IntegerLiteral(i) => Node::IntegerLiteral(*i),
            Node::Quote(b) => Node::Quote(Box::new((**b).duplicate())),
            Node::List(items) => {
                proof {
                    lemma_list_view(items@);
                }
                let mut out: Vec<Node> = Vec::new();
                let mut i: usize = 0;
                while i < items.len()
                    invariant
                        i <= items.len(),
                        out@.len() == i as nat,
                        self@ == NodeV::List(list_view(items@)),
                        list_view(items@) == nodes_view(items@),
                        forall|j: int| 0 <= j < i ==> out@[j]@ == items@[j]@,
                    decreases items@.len() - i,
                {
                    proof {
                        lemma_seq_size_bound(list_view(items@), i as int);
                    }
                    out.push(items[i].duplicate());
                    i = i + 1;
                }
                let r = Node::List(out);
                proof {
                    lemma_list_view(out@);
                    assert(nodes_view(out@) =~= nodes_view(items@));
                    assert(r@ == self@);
                }
                r
            },
        }
    }

    /// Structural equality of two nodes, decided as equality of their
    /// abstract forms.
    pub fn same_as(&self, other: &Node) -> (r: bool)
        ensures
            r == (self@ == other@),
        decreases size_of(self@),
    {
        match (self, other) {
            (Node::Identifier(a), Node::Identifier(b)) => *a == *b,
            (Node::StringLiteral(a), Node::StringLiteral(b)) => *a == *b,
            (Node::IntegerLiteral(a), Node::IntegerLiteral(b)) => *a == *b,
            (Node::Quote(a), Node::Quote(b)) => {
                let r = (**a).same_as(&**b);
                proof {
                    if r {
                        assert(self@ == other@);
                    }
                }
                r
            },
            (Node::List(xs), Node::List(ys)) => {
                proof {
                    lemma_list_view(xs@);
                    lemma_list_view(ys@);
                }
                if xs.len() != ys.len() {
                    proof {
                        assert(self@ != other@) by {
                            if self@ == other@ {
                                assert(self@->List_0.len() == other@->List_0.len());
                            }
                        }
                    }
                    false
                } else {
                    let mut i: usize = 0;
                    let mut r: bool = true;
                    while i < xs.len()
                        invariant
                            i <= xs.len(),
                            xs@.len() == ys@.len(),
                            self@ == NodeV::List(list_view(xs@)),
                            other@ == NodeV::List(list_view(ys@)),
                            list_view(xs@) == nodes_view(xs@),
                            r ==> (forall|j: int| 0 <= j < i ==> xs@[j]@ == ys@[j]@),
                            !r ==> (exists|j: int|
                                0 <= j < xs@.len() && xs@[j]@ != ys@[j]@),
                        decreases xs@.len() - i,
                    {
                        proof {
                            lemma_seq_size_bound(list_view(xs@), i as int);
                        }
                        if !xs[i].same_as(&ys[i]) {
                            proof {
                                assert(xs@[i as int]@ != ys@[i as int]@);
                            }
                            r = false;
                            i = xs.len();
                        } else {
                            i = i + 1;
                        }
                    }
                    proof {
                        lemma_list_view(ys@);
                        if r {
                            assert(nodes_view(xs@) =~= nodes_view(ys@));
                            assert(self@ == other@);
                        } else {
                            assert(self@ != other@) by {
                                let j = choose|j: int|
                                    0 <= j < xs@.len() && xs@[j]@ != ys@[j]@;
                                if self@ == other@ {
                                    assert(self@->List_0[j] == other@->List_0[j]);
                                }
                            }
                        }
                    }
                    r
                }
            },
            _ => {
                proof {
                    assert(self@ != other@);
                }
                false
            },
        }
    }
}

} // verus!
