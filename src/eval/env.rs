use crate::data::list::List;
use crate::eval::types::Expression;
use vstd::prelude::*;

verus! {

/// One `name := value` entry of a scope.
pub struct Binding {
    pub scope: usize,
    pub name: String,
    pub value: Expression,
}

/// All environments of an interpreter, each named by its index.
///
/// Scope `e` has parent `parents[e]`; a parent is always older than its
/// children. Bindings are kept newest first, so a later `set` of a name hides
/// the earlier one.
pub struct Envs {
    pub count: usize,
    pub parents: List<Option<usize>>,
    pub bindings: List<Binding>,
}

/// What an environment store means: each scope's parent, and the bindings
/// as `(scope, name, value)`, newest first.
pub struct Scopes {
    pub parents: Seq<Option<usize>>,
    pub bindings: Seq<(usize, Seq<char>, Expression)>,
}

/// The value of the newest binding of `name` in scope `e`, if any.
pub open spec fn local_in(bs: Seq<(usize, Seq<char>, Expression)>, e: usize, name: Seq<char>) -> Option<Expression>
    decreases bs.len(),
{
    if bs.len() == 0 {
        None
    } else if bs[0].0 == e && bs[0].1 == name {
        Some(bs[0].2)
    } else {
        local_in(bs.drop_first(), e, name)
    }
}

impl Scopes {
    /// The parent of `e`; only an older scope counts as one.
    pub open spec fn parent_of(self, e: usize) -> Option<usize> {
        if e < self.parents.len() {
            match self.parents[e as int] {
                Some(p) => if p < e {
                    Some(p)
                } else {
                    None
                },
                None => None,
            }
        } else {
            None
        }
    }

    /// The value `name` has in `e`: its own binding, else the parent's.
    pub open spec fn lookup(self, e: usize, name: Seq<char>) -> Option<Expression>
        decreases e,
    {
        match local_in(self.bindings, e, name) {
            Some(v) => Some(v),
            None => match self.parent_of(e) {
                Some(p) => if p < e {
                    self.lookup(p, name)
                } else {
                    None
                },
                None => None,
            },
        }
    }

    /// The store after binding `name` to `value` in `e` alone.
    pub open spec fn with(self, e: usize, name: Seq<char>, value: Expression) -> Scopes {
        Scopes { bindings: seq![(e, name, value)] + self.bindings, ..self }
    }

    /// The store after adding an empty child of `e`, named `self.parents.len()`.
    pub open spec fn spawn(self, e: usize) -> Scopes {
        Scopes { parents: self.parents.push(Some(e)), ..self }
    }
}

pub open spec fn binding_view(b: Binding) -> (usize, Seq<char>, Expression) {
    (b.scope, b.name@, b.value)
}

impl View for Envs {
    type V = Scopes;

    open spec fn view(&self) -> Scopes {
        Scopes { parents: self.parents@, bindings: self.bindings@.map_values(|b: Binding| binding_view(b)) }
    }
}

impl Envs {
    pub open spec fn wf(self) -> bool {
        self.count == self.parents@.len()
    }

    /// A store with one empty root environment, named 0.
    pub fn new() -> (r: Envs)
        ensures
            r.wf(),
            r@.parents == seq![None::<usize>],
            r@.bindings.len() == 0,
    {
        let mut parents = List::new();
        parents.push_top(None);
        Envs { count: 1, parents, bindings: List::new() }
    }

    /// The value of `name` in `e`, looked up through the parent chain.
    pub fn get(&self, e: usize, name: &String) -> (r: Option<Expression>)
        ensures
            r == self@.lookup(e, name@),
    {
        let mut cur = e;
        loop
            invariant
                self@.lookup(cur, name@) == self@.lookup(e, name@),
            decreases cur,
        {
            let found = find_local(&self.bindings, cur, name);
            match found {
                Some(v) => {
                    return Some(v);
                },
                None => {
                    match self.parent(cur) {
                        Some(p) => {
                            cur = p;
                        },
                        None => {
                            return None;
                        },
                    }
                },
            }
        }
    }

    /// The parent of `e`, as [`Envs::parent_of`] gives it.
    pub fn parent(&self, e: usize) -> (r: Option<usize>)
        ensures
            r == self@.parent_of(e),
    {
        let mut cursor = &self.parents;
        let mut i: usize = 0;
        while i < e && !cursor.is_empty()
            invariant
                i <= e,
                i <= self.parents@.len(),
                cursor@ == self.parents@.subrange(i as int, self.parents@.len() as int),
            decreases e - i,
        {
            cursor = cursor.tail();
            i = i + 1;
            proof {
                assert(cursor@ =~= self.parents@.subrange(i as int, self.parents@.len() as int));
            }
        }
        if i < e {
            return None;
        }
        match cursor.head() {
            Some(Some(p)) => if *p < e {
                Some(*p)
            } else {
                None
            },
            _ => None,
        }
    }

    /// Binds `name` to `value` in `e` only; the parents are untouched.
    pub fn set(&mut self, e: usize, name: String, value: Expression)
        ensures
            final(self)@ == old(self)@.with(e, name@, value),
            final(self).count == old(self).count,
            final(self).parents == old(self).parents,
    {
        self.bindings.push_top(Binding { scope: e, name, value });
        proof {
            assert(final(self)@.bindings =~= old(self)@.with(e, name@, value).bindings);
        }
    }

    /// Adds an empty environment whose parent is `e`, and names it.
    pub fn child(&mut self, e: usize) -> (r: usize)
        requires
            old(self).wf(),
            old(self).count < usize::MAX,
        ensures
            r == old(self).count,
            final(self).wf(),
            final(self)@ == old(self)@.spawn(e),
    {
        let r = self.count;
        self.parents.push(Some(e));
        self.count = self.count + 1;
        r
    }
}

/// The newest binding of `name` in scope `e`, copied.
fn find_local(l: &List<Binding>, e: usize, name: &String) -> (r: Option<Expression>)
    ensures
        r == local_in(l@.map_values(|b: Binding| binding_view(b)), e, name@),
{
    let mut cursor = l;
    loop
        invariant
            local_in(cursor@.map_values(|b: Binding| binding_view(b)), e, name@) == local_in(
                l@.map_values(|b: Binding| binding_view(b)),
                e,
                name@,
            ),
        decreases cursor@.len(),
    {
        match cursor {
            List::Empty => {
                return None;
            },
            List::Normal { car, cdr } => {
                let ghost here = cursor@.map_values(|b: Binding| binding_view(b));
                proof {
                    assert(here.drop_first() =~= cdr@.map_values(|b: Binding| binding_view(b)));
                }
                if car.scope == e && car.name == *name {
                    return Some(car.value.copy());
                }
                cursor = cdr;
            },
        }
    }
}

} // verus!
