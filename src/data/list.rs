use vstd::prelude::*;
use vstd::string::StringExecFns;

verus! {

/// The parts separated by single spaces, in parentheses: `(a b c)`.
pub open spec fn parenthesized(parts: Seq<Seq<char>>) -> Seq<char> {
    seq!['('] + spaced(parts) + seq![')']
}

/// The parts separated by single spaces.
pub open spec fn spaced(parts: Seq<Seq<char>>) -> Seq<char>
    decreases parts.len(),
{
    if parts.len() == 0 {
        Seq::empty()
    } else if parts.len() == 1 {
        parts[0]
    } else {
        spaced(parts.drop_last()) + seq![' '] + parts.last()
    }
}

/// A singly linked list, the compound form of both code and data.
#[derive(Debug, PartialEq)]
pub enum List<T> {
    Empty,
    Normal { car: T, cdr: Box<List<T>> },
}

impl<T> View for List<T> {
    type V = Seq<T>;

    open spec fn view(&self) -> Seq<T> {
        self.elems()
    }
}

impl<T> List<T> {
    /// The elements of the list, front first.
    pub open spec fn elems(&self) -> Seq<T>
        decreases self,
    {
        match self {
            List::Empty => Seq::empty(),
            List::Normal { car, cdr } => seq![*car] + cdr.elems(),
        }
    }

    /// The list whose elements are `s`.
    pub open spec fn from_seq(s: Seq<T>) -> List<T>
        decreases s.len(),
    {
        if s.len() == 0 {
            List::Empty
        } else {
            List::Normal { car: s[0], cdr: Box::new(List::from_seq(s.drop_first())) }
        }
    }

    /// A list is determined by its elements.
    pub proof fn lemma_from_seq_view(l: List<T>)
        ensures
            List::from_seq(l@) == l,
        decreases l,
    {
        match l {
            List::Empty => {},
            List::Normal { car, cdr } => {
                List::lemma_from_seq_view(*cdr);
                assert(l@.drop_first() =~= cdr@);
            },
        }
    }

    /// Two lists with the same elements are the same list.
    pub proof fn lemma_view_injective(a: List<T>, b: List<T>)
        requires
            a@ == b@,
        ensures
            a == b,
    {
        List::lemma_from_seq_view(a);
        List::lemma_from_seq_view(b);
    }

    pub fn new() -> (r: Self)
        ensures
            r@ == Seq::<T>::empty(),
    {
        List::Empty
    }

    pub fn cons(car: T, cdr: List<T>) -> (r: Self)
        ensures
            r@ == seq![car] + cdr@,
    {
        List::Normal { car, cdr: Box::new(cdr) }
    }

    pub fn head(&self) -> (r: Option<&T>)
        ensures
            self@.len() == 0 ==> r.is_none(),
            self@.len() > 0 ==> r == Some(&self@[0]),
    {
        match self {
            List::Empty => None,
            List::Normal { car, cdr: _ } => Some(car),
        }
    }

    pub fn head_mut(&mut self) -> (r: Option<&mut T>)
        ensures
            old(self)@.len() == 0 ==> r.is_none() && final(self)@ == old(self)@,
            old(self)@.len() > 0 ==> r.is_some() && *r.unwrap() == old(self)@[0]
                && final(self)@ == old(self)@.update(0, *final(r.unwrap())),
    {
        match self {
            List::Empty => None,
            List::Normal { car, cdr: _ } => Some(car),
        }
    }

    pub fn tail_mut(&mut self) -> (r: &mut List<T>)
        ensures
            old(self)@.len() == 0 ==> *r == *old(self) && *final(self) == *final(r),
            old(self)@.len() > 0 ==> r@ == old(self)@.drop_first() && final(self)@ == seq![
                old(self)@[0],
            ] + final(r)@,
    {
        match self {
            List::Empty => self,
            List::Normal { car: _, cdr } => cdr,
        }
    }

    pub fn tail(&self) -> (r: &List<T>)
        ensures
            self@.len() == 0 ==> r@ == self@,
            self@.len() > 0 ==> r@ == self@.drop_first(),
    {
        match self {
            List::Empty => self,
            List::Normal { car: _, cdr } => {
                proof {
                    assert(self@.drop_first() =~= cdr@);
                }
                cdr
            },
        }
    }

    pub fn len(&self) -> (r: i64)
        requires
            self@.len() <= i64::MAX,
        ensures
            r == self@.len(),
    {
        let mut len: i64 = 0;
        let mut cursor = self;
        while !cursor.is_empty()
            invariant
                len + cursor@.len() == self@.len(),
                self@.len() <= i64::MAX,
            decreases cursor@.len(),
        {
            len = len + 1;
            cursor = cursor.tail();
        }
        len
    }

    /// Appends `item` at the end.
    pub fn push(&mut self, item: T)
        ensures
            final(self)@ == old(self)@.push(item),
        decreases old(self)@.len(),
    {
        match self {
            List::Empty => {
                *self = List::Normal { car: item, cdr: Box::new(List::Empty) };
                proof {
                    assert(final(self)@ =~= old(self)@.push(item));
                }
            },
            List::Normal { car: _, cdr } => {
                cdr.push(item);
                proof {
                    assert(final(self)@ =~= old(self)@.push(item));
                }
            },
        }
    }

    /// Puts `item` in front.
    pub fn push_top(&mut self, item: T)
        ensures
            final(self)@ == seq![item] + old(self)@,
            *final(self) == (List::Normal { car: item, cdr: Box::new(*old(self)) }),
    {
        let mut rest = List::Empty;
        std::mem::swap(&mut rest, self);
        *self = List::Normal { car: item, cdr: Box::new(rest) };
    }

    pub fn reverse(self) -> (r: List<T>)
        ensures
            r@ == self@.reverse(),
    {
        let mut acc = List::new();
        let mut current = self;
        let ghost whole = self@;
        while !current.is_empty()
            invariant
                whole == acc@.reverse() + current@,
            decreases current@.len(),
        {
            let ghost before = acc@;
            let ghost rest = current@;
            if let Some(car) = current.shift() {
                acc.push_top(car);
                proof {
                    assert(acc@.reverse() =~= before.reverse().push(car));
                    assert(rest =~= seq![car] + current@);
                    assert(whole =~= acc@.reverse() + current@);
                }
            }
        }
        proof {
            assert(acc@.reverse().reverse() =~= acc@);
            assert(whole =~= acc@.reverse());
        }
        acc
    }

    /// Removes and returns the first element.
    pub fn shift(&mut self) -> (r: Option<T>)
        ensures
            old(self)@.len() == 0 ==> r.is_none() && final(self)@ == old(self)@,
            old(self)@.len() > 0 ==> r == Some(old(self)@[0]) && final(self)@
                == old(self)@.drop_first(),
    {
        let mut whole = List::Empty;
        std::mem::swap(&mut whole, self);
        match whole {
            List::Empty => None,
            List::Normal { car, cdr } => {
                proof {
                    assert(old(self)@.drop_first() =~= cdr@);
                }
                *self = *cdr;
                Some(car)
            },
        }
    }

    /// Removes and returns the last element.
    pub fn pop(&mut self) -> (r: Option<T>)
        ensures
            old(self)@.len() == 0 ==> r.is_none() && final(self)@ == old(self)@,
            old(self)@.len() > 0 ==> r == Some(old(self)@.last()) && final(self)@
                == old(self)@.drop_last(),
        decreases old(self)@.len(),
    {
        match self {
            List::Empty => None,
            List::Normal { car: _, cdr } => {
                if cdr.is_empty() {
                    self.shift()
                } else {
                    let r = cdr.pop();
                    proof {
                        assert(final(self)@ =~= old(self)@.drop_last());
                    }
                    r
                }
            },
        }
    }

    /// References to the elements, front first.
    pub fn iter(&self) -> (r: Vec<&T>)
        ensures
            r@.map_values(|x: &T| *x) == self@,
    {
        let mut out: Vec<&T> = Vec::new();
        let mut cursor = self;
        while !cursor.is_empty()
            invariant
                out@.map_values(|x: &T| *x) + cursor@ == self@,
            decreases cursor@.len(),
        {
            if let Some(car) = cursor.head() {
                out.push(car);
            }
            let ghost before = cursor@;
            cursor = cursor.tail();
            proof {
                assert(before =~= seq![before[0]] + cursor@);
                assert(out@.map_values(|x: &T| *x) + cursor@ =~= self@);
            }
        }
        proof {
            assert(out@.map_values(|x: &T| *x) =~= self@);
        }
        out
    }

    /// Builds a list holding the vector's elements in order.
    pub fn from_vec(v: Vec<T>) -> (r: List<T>)
        ensures
            r@ == v@,
    {
        let mut v = v;
        let mut acc = List::new();
        let ghost whole = v@;
        while v.len() > 0
            invariant
                whole == v@ + acc@,
            decreases v.len(),
        {
            let ghost before = v@;
            let item = v.pop().unwrap();
            acc.push_top(item);
            proof {
                assert(whole =~= v@ + acc@);
            }
        }
        proof {
            assert(whole =~= acc@);
        }
        acc
    }

    /// Applies `cb` to every element, keeping the order.
    pub fn map<CB, R>(self, cb: CB) -> (r: List<R>)
        where
            CB: Fn(T) -> R,
        requires
            forall|x: T| cb.requires((x,)),
        ensures
            r@.len() == self@.len(),
            forall|i: int| 0 <= i < self@.len() ==> cb.ensures((self@[i],), #[trigger] r@[i]),
    {
        let mut acc: List<R> = List::new();
        let mut current = self.reverse();
        let ghost whole = self@;
        while !current.is_empty()
            invariant
                forall|x: T| cb.requires((x,)),
                current@.len() + acc@.len() == whole.len(),
                forall|i: int| 0 <= i < current@.len() ==> current@[i] == whole[current@.len() - 1 - i],
                forall|j: int| 0 <= j < acc@.len() ==> cb.ensures((whole[current@.len() + j],), #[trigger] acc@[j]),
            decreases current@.len(),
        {
            let ghost cur = current@;
            let ghost before = acc@;
            if let Some(car) = current.shift() {
                let y = cb(car);
                acc.push_top(y);
                proof {
                    assert forall|j: int| 0 <= j < acc@.len() implies cb.ensures((whole[current@.len() + j],), #[trigger] acc@[j]) by {
                        if j > 0 {
                            assert(acc@[j] == before[j - 1]);
                        }
                    }
                    assert forall|i: int| 0 <= i < current@.len() implies current@[i] == whole[current@.len() - 1 - i] by {
                        assert(current@[i] == cur[i + 1]);
                    }
                }
            }
        }
        acc
    }

    /// Keeps the elements for which `cb` answers true, in order.
    pub fn filter<CB>(self, cb: CB) -> (r: List<T>)
        where
            CB: Fn(&T) -> bool,
        requires
            forall|x: &T| cb.requires((x,)),
        ensures
            exists|keep: Seq<bool>|
                {
                    &&& keep.len() == self@.len()
                    &&& forall|i: int| 0 <= i < self@.len() ==> cb.ensures((&self@[i],), #[trigger] keep[i])
                    &&& r@ == kept(self@, keep)
                },
    {
        let mut acc: List<T> = List::new();
        let ghost whole = self@;
        let mut current = self.reverse();
        let ghost mut keep: Seq<bool> = Seq::empty();
        while !current.is_empty()
            invariant
                forall|x: &T| cb.requires((x,)),
                current@.len() + keep.len() == whole.len(),
                forall|i: int| 0 <= i < current@.len() ==> current@[i] == whole[current@.len() - 1 - i],
                forall|j: int| 0 <= j < keep.len() ==> cb.ensures((&whole[current@.len() + j],), #[trigger] keep[j]),
                acc@ == kept(whole.subrange(current@.len() as int, whole.len() as int), keep),
            decreases current@.len(),
        {
            let ghost cur = current@;
            let ghost old_keep = keep;
            let ghost old_acc = acc@;
            if let Some(car) = current.shift() {
                let b = cb(&car);
                proof {
                    keep = seq![b] + keep;
                    let n = current@.len() as int;
                    assert(whole.subrange(n, whole.len() as int) =~= seq![car] + whole.subrange(n + 1, whole.len() as int));
                    assert(car == whole[n]);
                    lemma_kept_front(car, whole.subrange(n + 1, whole.len() as int), b, old_keep);
                    assert forall|j: int| 0 <= j < keep.len() implies cb.ensures((&whole[current@.len() + j],), #[trigger] keep[j]) by {
                        if j > 0 {
                            assert(keep[j] == old_keep[j - 1]);
                        }
                    }
                    assert forall|i: int| 0 <= i < current@.len() implies current@[i] == whole[current@.len() - 1 - i] by {
                        assert(current@[i] == cur[i + 1]);
                    }
                }
                if b {
                    acc.push_top(car);
                }
            }
        }
        proof {
            assert(whole.subrange(0, whole.len() as int) =~= whole);
        }
        acc
    }

    /// `(e1 e2 ... en)`, each element written by `show`.
    pub fn to_text<F>(&self, show: F) -> (r: String)
        where
            F: Fn(&T) -> String,
        requires
            forall|x: &T| show.requires((x,)),
        ensures
            exists|parts: Seq<String>|
                {
                    &&& parts.len() == self@.len()
                    &&& forall|i: int| 0 <= i < self@.len() ==> show.ensures((&self@[i],), #[trigger] parts[i])
                    &&& r@ == parenthesized(parts.map_values(|p: String| p@))
                },
    {
        let mut out = String::new();
        let ghost mut parts: Seq<String> = Seq::empty();
        let mut cursor = self;
        let mut first = true;
        proof {
            reveal_strlit("(");
            reveal_strlit(" ");
            reveal_strlit(")");
        }
        out.append("(");
        proof {
            assert(out@ =~= seq!['('] + spaced(parts.map_values(|p: String| p@)));
        }
        while !cursor.is_empty()
            invariant
                forall|x: &T| show.requires((x,)),
                parts.len() + cursor@.len() == self@.len(),
                cursor@ == self@.subrange(parts.len() as int, self@.len() as int),
                forall|i: int| 0 <= i < parts.len() ==> show.ensures((&self@[i],), #[trigger] parts[i]),
                out@ == seq!['('] + spaced(parts.map_values(|p: String| p@)),
                first == (parts.len() == 0),
            decreases cursor@.len(),
        {
            if let Some(car) = cursor.head() {
                let part = show(car);
                let ghost old_out = out@;
                proof {
                    reveal_strlit(" ");
                }
                if !first {
                    out.append(" ");
                }
                first = false;
                out.append(part.as_str());
                proof {
                    let before = parts;
                    parts = parts.push(part);
                    let views = parts.map_values(|p: String| p@);
                    assert(views.drop_last() =~= before.map_values(|p: String| p@));
                    assert(views.last() == part@);
                    if before.len() == 0 {
                        assert(spaced(views) == part@);
                        assert(out@ =~= seq!['('] + spaced(views));
                    } else {
                        assert(views.len() >= 2);
                        assert(spaced(views) == spaced(views.drop_last()) + seq![' '] + views.last());
                        assert(old_out == seq!['('] + spaced(views.drop_last()));
                        assert(out@ =~= old_out + seq![' '] + part@);
                        assert(out@ =~= seq!['('] + spaced(views));
                    }
                }
            }
            let ghost before = cursor@;
            cursor = cursor.tail();
            proof {
                assert(cursor@ =~= self@.subrange(parts.len() as int, self@.len() as int));
            }
        }
        out.append(")");
        proof {
            assert(parts.len() == self@.len());
            assert(out@ =~= parenthesized(parts.map_values(|p: String| p@)));
        }
        out
    }

    pub fn is_empty(&self) -> (r: bool)
        ensures
            r == (self@.len() == 0),
    {
        match self {
            List::Empty => true,
            List::Normal { .. } => false,
        }
    }
}

/// The elements of `s` whose flag in `keep` is true.
pub open spec fn kept<T>(s: Seq<T>, keep: Seq<bool>) -> Seq<T>
    decreases s.len(),
{
    if s.len() == 0 || keep.len() == 0 {
        Seq::empty()
    } else if keep[0] {
        seq![s[0]] + kept(s.drop_first(), keep.drop_first())
    } else {
        kept(s.drop_first(), keep.drop_first())
    }
}

proof fn lemma_kept_front<T>(x: T, s: Seq<T>, b: bool, keep: Seq<bool>)
    ensures
        kept(seq![x] + s, seq![b] + keep) == if b {
            seq![x] + kept(s, keep)
        } else {
            kept(s, keep)
        },
{
    assert((seq![x] + s).drop_first() =~= s);
    assert((seq![b] + keep).drop_first() =~= keep);
}

} // verus!
