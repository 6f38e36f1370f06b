//! Paths: ordered sequences of invocation coordinates.
//!
//! A coordinate pairs the token of a construct with a counter that tells
//! sibling invocations of the same token apart.  A path stores each
//! coordinate in its rendered form `token:counter`; its own textual form
//! joins the coordinates with `/` and is the key under which values travel
//! on the wire.

use vstd::prelude::*;

use crate::text::decimal_chars;
use crate::text::u32_to_decimal;

verus! {

/// One invocation coordinate: a construct token and a sibling counter.
#[derive(Debug, PartialEq, Eq)]
pub struct InvocationCoordinate {
    pub token: String,
    pub counter: u32,
}

impl View for InvocationCoordinate {
    type V = (Seq<char>, u32);

    open spec fn view(&self) -> (Seq<char>, u32) {
        (self.token@, self.counter)
    }
}

/// The rendered form of a coordinate: `token:counter`.
pub open spec fn coord_text(c: (Seq<char>, u32)) -> Seq<char> {
    c.0 + seq![':'] + decimal_chars(c.1 as nat)
}

impl InvocationCoordinate {
    pub fn new(counter: u32, token: &str) -> (r: Self)
        ensures
            r@ == (token@, counter),
    {
        InvocationCoordinate { token: token.to_owned(), counter }
    }

    /// The coordinate in its textual form `token:counter`.
    pub fn render(&self) -> (r: String)
        ensures
            r@ == coord_text(self@),
    {
        let mut s = self.token.clone();
        s.append(":");
        let counter_text = u32_to_decimal(self.counter);
        s.append(counter_text.as_str());
        proof {
            reveal_strlit(":");
            assert(s@ =~= coord_text(self@));
        }
        s
    }
}

impl Clone for InvocationCoordinate {
    fn clone(&self) -> (r: Self)
        ensures
            r == *self,
    {
        InvocationCoordinate { token: self.token.clone(), counter: self.counter }
    }
}

/// An ordered sequence of rendered coordinates, identifying one observable
/// point of the program.
#[derive(Debug, PartialEq, Eq, PartialOrd, Ord, Hash)]
pub struct Path {
    tokens: Vec<String>,
}

impl View for Path {
    type V = Seq<Seq<char>>;

    closed spec fn view(&self) -> Seq<Seq<char>> {
        self.tokens.deep_view()
    }
}

/// The textual form of a path: its tokens joined by `/`.
pub open spec fn path_text(p: Seq<Seq<char>>) -> Seq<char>
    decreases p.len(),
{
    if p.len() == 0 {
        Seq::empty()
    } else if p.len() == 1 {
        p[0]
    } else {
        path_text(p.drop_last()) + seq!['/'] + p.last()
    }
}

impl Path {
    pub fn new(tokens: Vec<String>) -> (r: Self)
        ensures
            r@ == tokens.deep_view(),
    {
        Path { tokens }
    }

    /// The path of a stack of coordinates: each rendered as `token:counter`.
    pub fn from_coordinates(coords: &Vec<InvocationCoordinate>) -> (r: Self)
        ensures
            r@ == coords@.map(|i: int, c: InvocationCoordinate| coord_text(c@)),
    {
        let ghost target = coords@.map(|i: int, c: InvocationCoordinate| coord_text(c@));
        let mut tokens: Vec<String> = Vec::new();
        let mut i: usize = 0;
        while i < coords.len()
            invariant
                i <= coords@.len(),
                tokens@.len() == i,
                forall|k: int| 0 <= k < i ==> tokens@[k]@ == target[k],
                target == coords@.map(|i: int, c: InvocationCoordinate| coord_text(c@)),
            decreases coords@.len() - i,
        {
            let rendered = coords[i].render();
            tokens.push(rendered);
            i = i + 1;
        }
        let r = Path { tokens };
        proof {
            assert(r@ =~= target);
        }
        r
    }

    /// How many coordinates the path holds.
    pub fn len(&self) -> (r: usize)
        ensures
            r == self@.len(),
    {
        self.tokens.len()
    }

    /// Whether two paths hold the same coordinates.
    pub fn same_as(&self, other: &Path) -> (r: bool)
        ensures
            r == (self@ == other@),
    {
        if self.tokens.len() != other.tokens.len() {
            proof {
                assert(self@.len() == self.tokens@.len());
                assert(other@.len() == other.tokens@.len());
            }
            return false;
        }
        let mut i: usize = 0;
        while i < self.tokens.len()
            invariant
                i <= self.tokens@.len(),
                self.tokens@.len() == other.tokens@.len(),
                forall|k: int| 0 <= k < i ==> self@[k] == other@[k],
            decreases self.tokens@.len() - i,
        {
            if !string_eq(&self.tokens[i], &other.tokens[i]) {
                proof {
                    assert(self@[i as int] != other@[i as int]);
                }
                return false;
            }
            i = i + 1;
        }
        proof {
            assert(self@ =~= other@);
        }
        true
    }

    /// The path in its textual form, tokens joined by `/`.
    pub fn text(&self) -> (r: String)
        ensures
            r@ == path_text(self@),
    {
        let mut out = String::new();
        let mut i: usize = 0;
        while i < self.tokens.len()
            invariant
                i <= self.tokens@.len(),
                out@ == path_text(self@.take(i as int)),
            decreases self.tokens@.len() - i,
        {
            if i > 0 {
                out.append("/");
            }
            out.append(self.tokens[i].as_str());
            proof {
                reveal_strlit("/");
                lemma_path_text_take_step(self@, i as int);
            }
            i = i + 1;
        }
        proof {
            assert(self@.take(self.tokens@.len() as int) =~= self@);
        }
        out
    }
}

impl Clone for Path {
    fn clone(&self) -> (r: Self)
        ensures
            r@ == self@,
    {
        let mut tokens: Vec<String> = Vec::new();
        let mut i: usize = 0;
        while i < self.tokens.len()
            invariant
                i <= self.tokens@.len(),
                tokens@.len() == i,
                forall|k: int| 0 <= k < i ==> tokens@[k]@ == self@[k],
            decreases self.tokens@.len() - i,
        {
            tokens.push(self.tokens[i].clone());
            i = i + 1;
        }
        let r = Path { tokens };
        proof {
            assert(r@ =~= self@);
        }
        r
    }
}

/// Whether two strings hold the same characters.
pub fn string_eq(a: &String, b: &String) -> (r: bool)
    ensures
        r == (a@ == b@),
{
    a.eq(b)
}

proof fn lemma_path_text_take_step(p: Seq<Seq<char>>, i: int)
    requires
        0 <= i < p.len(),
    ensures
        i == 0 ==> path_text(p.take(1)) == p[0],
        i > 0 ==> path_text(p.take(i + 1)) == path_text(p.take(i)) + seq!['/'] + p[i],
{
    if i == 0 {
        assert(p.take(1).len() == 1);
        assert(p.take(1)[0] == p[0]);
    } else {
        assert(p.take(i + 1).drop_last() =~= p.take(i));
        assert(p.take(i + 1).last() == p[i]);
    }
}

} // verus!
