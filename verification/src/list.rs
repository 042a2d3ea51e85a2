//! A singly linked cons list of 32-bit integers, convertible to and from a
//! vector without changing the order of the elements.

use vstd::prelude::*;

verus! {

/// A cons list: a head element and a boxed tail, or the empty list.
#[derive(PartialEq, Debug)]
pub enum List {
    Cons(i32, Box<List>),
    Nil,
}

/// The elements of the list, front first.
pub open spec fn list_elems(l: List) -> Seq<i32>
    decreases l,
{
    match l {
        List::Nil => Seq::empty(),
        List::Cons(x, rest) => seq![x] + list_elems(*rest),
    }
}

/// The list holding the elements of `s`, front first.
pub open spec fn list_of(s: Seq<i32>) -> List
    decreases s.len(),
{
    if s.len() == 0 {
        List::Nil
    } else {
        List::Cons(s[0], Box::new(list_of(s.drop_first())))
    }
}

/// `list_of` and `list_elems` are inverses.
pub proof fn lemma_list_of_elems(s: Seq<i32>)
    ensures
        list_elems(list_of(s)) == s,
    decreases s.len(),
{
    if s.len() == 0 {
        assert(list_elems(list_of(s)) =~= s);
    } else {
        lemma_list_of_elems(s.drop_first());
        assert(list_elems(list_of(s)) =~= s);
    }
}

/// Two lists with the same elements are the same list.
pub proof fn lemma_list_elems_injective(a: List, b: List)
    requires
        list_elems(a) == list_elems(b),
    ensures
        a == b,
    decreases a,
{
    match a {
        List::Nil => {
            match b {
                List::Nil => {},
                List::Cons(y, rest_b) => {
                    assert(list_elems(b).len() > 0);
                },
            }
        },
        List::Cons(x, rest_a) => {
            match b {
                List::Nil => {
                    assert(list_elems(a).len() > 0);
                },
                List::Cons(y, rest_b) => {
                    assert(list_elems(a)[0] == x);
                    assert(list_elems(b)[0] == y);
                    assert(list_elems(*rest_a) =~= list_elems(a).drop_first());
                    assert(list_elems(*rest_b) =~= list_elems(b).drop_first());
                    lemma_list_elems_injective(*rest_a, *rest_b);
                },
            }
        },
    }
}

impl List {
    /// The list of the vector's elements, front first.
    pub fn from_vec(v: Vec<i32>) -> (r: List)
        ensures
            list_elems(r) == v@,
    {
        let n = v.len();
        let mut l = List::Nil;
        let mut i: usize = n;
        proof {
            assert(v@.subrange(n as int, n as int) =~= Seq::<i32>::empty());
        }
        while i > 0
            invariant
                i <= n == v@.len(),
                list_elems(l) == v@.subrange(i as int, n as int),
            decreases i,
        {
            i = i - 1;
            l = List::Cons(v[i], Box::new(l));
            proof {
                assert(list_elems(l) =~= v@.subrange(i as int, n as int));
            }
        }
        proof {
            assert(v@.subrange(0, n as int) =~= v@);
        }
        l
    }

    /// The vector of the list's elements, front first.
    pub fn into_vec(self) -> (r: Vec<i32>)
        ensures
            r@ == list_elems(self),
    {
        let mut r: Vec<i32> = Vec::new();
        let mut cur = self;
        proof {
            assert(r@ + list_elems(cur) =~= list_elems(self));
        }
        loop
            invariant
                r@ + list_elems(cur) == list_elems(self),
            decreases cur,
        {
            match cur {
                List::Nil => {
                    proof {
                        assert(r@ =~= list_elems(self));
                    }
                    return r;
                },
                List::Cons(x, rest) => {
                    r.push(x);
                    cur = *rest;
                    proof {
                        assert(r@ + list_elems(cur) =~= list_elems(self));
                    }
                },
            }
        }
    }
}

impl From<Vec<i32>> for List {
    /// Builds the list of the vector's elements, front first.
    fn from(v: Vec<i32>) -> (r: List) {
        proof {
            lemma_list_of_elems(v@);
        }
        let r = List::from_vec(v);
        proof {
            lemma_list_elems_injective(r, list_of(v@));
        }
        r
    }
}

impl vstd::std_specs::convert::FromSpecImpl<Vec<i32>> for List {
    open spec fn obeys_from_spec() -> bool {
        true
    }

    open spec fn from_spec(v: Vec<i32>) -> List {
        list_of(v@)
    }
}

impl From<List> for Vec<i32> {
    /// Collects the list's elements, front first.
    fn from(l: List) -> (r: Vec<i32>)
        ensures
            r@ == list_elems(l),
    {
        l.into_vec()
    }
}

impl vstd::std_specs::convert::FromSpecImpl<List> for Vec<i32> {
    // A vector value cannot be written down in specification code, so the
    // conversion's contract stands on `from` itself, not on a spec-level
    // image.
    open spec fn obeys_from_spec() -> bool {
        false
    }

    open spec fn from_spec(l: List) -> Vec<i32> {
        arbitrary()
    }
}

} // verus!
