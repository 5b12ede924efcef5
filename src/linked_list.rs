use vstd::prelude::*;
use vstd::std_specs::cmp::PartialEqSpec;

verus! {

/// A linked list: either empty, or a head followed by an owned tail.
#[derive(Debug)]
pub enum List<T> {
    Nil,
    Cons(T, Box<List<T>>),
}

impl<T> List<T> {
    /// The elements of the list, head first.
    pub open spec fn to_seq(&self) -> Seq<T>
        decreases self,
    {
        match self {
            List::Nil => Seq::empty(),
            List::Cons(x, rest) => seq![*x] + rest.to_seq(),
        }
    }
}

impl<T> View for List<T> {
    type V = Seq<T>;

    open spec fn view(&self) -> Seq<T> {
        self.to_seq()
    }
}

/// `b` holds, position by position, a clone of each element of `a`.
pub open spec fn is_clone_of<T: Clone>(a: Seq<T>, b: Seq<T>) -> bool {
    &&& b.len() == a.len()
    &&& forall|i: int| 0 <= i < a.len() ==> cloned(a[i], #[trigger] b[i])
}

impl<T: Clone> Clone for List<T> {
    /// Copies every node, cloning each element.
    fn clone(&self) -> (r: Self)
        ensures
            is_clone_of(self@, r@),
        decreases self,
    {
        match self {
            List::Nil => List::Nil,
            List::Cons(x, rest) => {
                let y = x.clone();
                let tail = (**rest).clone();
                let r = List::Cons(y, Box::new(tail));
                assert forall|i: int| 0 <= i < self@.len() implies cloned(
                    self@[i],
                    #[trigger] r@[i],
                ) by {
                    if i > 0 {
                        assert(self@[i] == rest@[i - 1] && r@[i] == tail@[i - 1]);
                    }
                }
                r
            },
        }
    }
}

/// Cloning a list of integers gives back a list with exactly the same elements.
pub proof fn lemma_clone_of_integers_is_equal(xs: List<i32>, ys: List<i32>)
    requires
        is_clone_of(xs@, ys@),
    ensures
        ys@ == xs@,
{
    assert(ys@ =~= xs@);
}

/// The zero-length list.
pub fn empty<T>() -> (r: List<T>)
    ensures
        r@ == Seq::<T>::empty(),
{
    List::Nil
}

/// Concatenates two lists; the nodes of `ys` are reused as the suffix.
pub fn concat<A>(xs: List<A>, ys: List<A>) -> (r: List<A>)
    ensures
        r@ == xs@ + ys@,
    decreases xs,
{
    match xs {
        List::Nil => {
            assert(xs@ + ys@ =~= ys@);
            ys
        },
        List::Cons(x, rest) => {
            let tail = concat(*rest, ys);
            let r = List::Cons(x, Box::new(tail));
            assert(r@ =~= xs@ + ys@);
            r
        },
    }
}

/// Applies `f` to each element, keeping order and length.
pub fn map<A, B, F>(f: F, xs: &List<A>) -> (r: List<B>) where F: Fn(&A) -> B
    requires
        forall|i: int| 0 <= i < xs@.len() ==> f.requires((&xs@[i],)),
    ensures
        r@.len() == xs@.len(),
        forall|i: int| 0 <= i < xs@.len() ==> f.ensures((&xs@[i],), #[trigger] r@[i]),
    decreases xs,
{
    match xs {
        List::Nil => List::Nil,
        List::Cons(x, rest) => {
            assert(forall|i: int| 0 <= i < rest@.len() ==> rest@[i] == xs@[i + 1]);
            assert(xs@[0] == *x);
            let y = f(x);
            let tail = map(f, rest);
            let r = List::Cons(y, Box::new(tail));
            assert forall|i: int| 0 <= i < xs@.len() implies f.ensures((&xs@[i],), #[trigger] r@[i]) by {
                if i > 0 {
                    assert(r@[i] == tail@[i - 1]);
                }
            }
            r
        },
    }
}

/// Combines the two lists position by position, stopping at the end of the shorter one.
pub fn zip_with<A, B, C, F>(f: F, xs: &List<A>, ys: &List<B>) -> (r: List<C>) where
    F: Fn(&A, &B) -> C,
    requires
        forall|i: int|
            0 <= i < xs@.len() && 0 <= i < ys@.len() ==> f.requires((&xs@[i], &ys@[i])),
    ensures
        r@.len() == if xs@.len() <= ys@.len() {
            xs@.len()
        } else {
            ys@.len()
        },
        forall|i: int|
            0 <= i < r@.len() ==> f.ensures((&xs@[i], &ys@[i]), #[trigger] r@[i]),
    decreases xs,
{
    match xs {
        List::Nil => List::Nil,
        List::Cons(x, xrest) => match ys {
            List::Nil => List::Nil,
            List::Cons(y, yrest) => {
                assert(forall|i: int| 0 <= i < xrest@.len() ==> xrest@[i] == xs@[i + 1]);
                assert(forall|i: int| 0 <= i < yrest@.len() ==> yrest@[i] == ys@[i + 1]);
                assert(xs@[0] == *x && ys@[0] == *y);
                let z = f(x, y);
                let tail = zip_with(f, xrest, yrest);
                let r = List::Cons(z, Box::new(tail));
                assert forall|i: int| 0 <= i < r@.len() implies f.ensures(
                    (&xs@[i], &ys@[i]),
                    #[trigger] r@[i],
                ) by {
                    if i > 0 {
                        assert(r@[i] == tail@[i - 1]);
                    }
                }
                r
            },
        },
    }
}

/// Whether some element of `xs` equals `value`.
pub fn elem<T: Eq>(value: T, xs: &List<T>) -> (r: bool)
    ensures
        xs@.len() == 0 ==> !r,
        T::obeys_eq_spec() ==> (r <==> exists|i: int|
            0 <= i < xs@.len() && (#[trigger] xs@[i]).eq_spec(&value)),
    decreases xs,
{
    match xs {
        List::Nil => {
            assert(xs@.len() == 0);
            false
        },
        List::Cons(x, rest) => {
            assert(forall|i: int| 0 <= i < rest@.len() ==> rest@[i] == xs@[i + 1]);
            let r = *x == value || elem(value, rest);
            proof {
                if T::obeys_eq_spec() && (*x).eq_spec(&value) {
                    assert(xs@[0] == *x);
                }
                if T::obeys_eq_spec() && r && !(*x).eq_spec(&value) {
                    let i = choose|i: int| 0 <= i < rest@.len() && (#[trigger] rest@[i]).eq_spec(&value);
                    assert(xs@[i + 1] == rest@[i]);
                }
                if T::obeys_eq_spec() && !r {
                    assert forall|i: int| 0 <= i < xs@.len() implies !(#[trigger] xs@[i]).eq_spec(&value) by {
                        if i > 0 {
                            assert(xs@[i] == rest@[i - 1]);
                        }
                    }
                }
            }
            r
        },
    }
}

/// The decreasing sequence `n, n - 1, ..., 1`; empty when `n <= 0`.
pub open spec fn countdown(n: int) -> Seq<i32> {
    Seq::new(if n <= 0 { 0 } else { n as nat }, |i: int| (n - i) as i32)
}

/// The list `length, length - 1, ..., 1`, or the empty list when `length <= 0`.
pub fn range(length: i32) -> (r: List<i32>)
    ensures
        r@ == countdown(length as int),
    decreases length,
{
    if length <= 0 {
        assert(countdown(length as int) =~= Seq::<i32>::empty());
        List::Nil
    } else {
        let tail = range(length - 1);
        let r = List::Cons(length, Box::new(tail));
        assert(r@ =~= countdown(length as int));
        r
    }
}

/// `r` is a result of folding `f` over `s` from the left, starting from `acc`.
pub open spec fn folds_to<A, B, F: Fn(B, A) -> B>(f: F, acc: B, s: Seq<A>, r: B) -> bool
    decreases s.len(),
{
    if s.len() == 0 {
        r == acc
    } else {
        exists|b: B| #[trigger] f.ensures((acc, s[0]), b) && folds_to(f, b, s.drop_first(), r)
    }
}

/// With a folder that always returns `g` of its arguments, a left fold over `s` gives
/// `s.fold_left(acc, g)`: the fold of a deterministic function is the standard left fold.
pub proof fn lemma_folds_to_fold_left<A, B, F: Fn(B, A) -> B>(
    f: F,
    g: spec_fn(B, A) -> B,
    acc: B,
    s: Seq<A>,
    r: B,
)
    requires
        forall|b: B, a: A, y: B| f.ensures((b, a), y) ==> y == g(b, a),
        folds_to(f, acc, s, r),
    ensures
        r == s.fold_left(acc, g),
    decreases s.len(),
{
    s.lemma_fold_left_alt(acc, g);
    if s.len() > 0 {
        let b = choose|b: B| #[trigger] f.ensures((acc, s[0]), b) && folds_to(f, b, s.drop_first(), r);
        lemma_folds_to_fold_left(f, g, b, s.drop_first(), r);
        s.drop_first().lemma_fold_left_alt(b, g);
        assert(s.drop_first() == s.subrange(1, s.len() as int));
    }
}

/// Left fold: combines the seed with each element in turn, head first.
pub fn foldl<A: Copy, B: Copy, F: Fn(B, A) -> B>(folder: F, seed: B, xs: &List<A>) -> (r: B)
    requires
        forall|b: B, a: A| folder.requires((b, a)),
    ensures
        folds_to(folder, seed, xs@, r),
    decreases xs,
{
    match xs {
        List::Nil => seed,
        List::Cons(x, rest) => {
            let acc = folder(seed, *x);
            let r = foldl(folder, acc, rest);
            assert(xs@[0] == *x && xs@.drop_first() =~= rest@);
            r
        },
    }
}

/// The concatenation of the views of `parts`, in order.
pub open spec fn flatten_lists<B>(parts: Seq<List<B>>) -> Seq<B> {
    parts.map_values(|l: List<B>| l@).flatten()
}

/// `r` is the concatenation of one result of `f` for each element of `s`, in order.
pub open spec fn concat_mapped<A, B, F: Fn(&A) -> List<B>>(f: F, s: Seq<A>, r: Seq<B>) -> bool {
    exists|parts: Seq<List<B>>|
        {
            &&& parts.len() == s.len()
            &&& forall|i: int| 0 <= i < s.len() ==> f.ensures((&s[i],), #[trigger] parts[i])
            &&& r == flatten_lists(parts)
        }
}

/// Applies `f` to each element and concatenates the resulting lists, in order.
pub fn concat_map<A, B, F: Fn(&A) -> List<B>>(f: F, xs: &List<A>) -> (r: List<B>)
    requires
        forall|i: int| 0 <= i < xs@.len() ==> f.requires((&xs@[i],)),
    ensures
        concat_mapped(f, xs@, r@),
    decreases xs,
{
    match xs {
        List::Nil => {
            let r = List::Nil;
            assert(flatten_lists(Seq::<List<B>>::empty()) =~= r@);
            assert(Seq::<List<B>>::empty().len() == xs@.len());
            r
        },
        List::Cons(x, rest) => {
            assert(forall|i: int| 0 <= i < rest@.len() ==> rest@[i] == xs@[i + 1]);
            assert(xs@[0] == *x);
            let head = f(x);
            let tail = concat_map(f, rest);
            let ghost head_view = head@;
            let r = concat(head, tail);
            proof {
                let tail_parts = choose|parts: Seq<List<B>>|
                    {
                        &&& parts.len() == rest@.len()
                        &&& forall|i: int|
                            0 <= i < rest@.len() ==> f.ensures((&rest@[i],), #[trigger] parts[i])
                        &&& tail@ == flatten_lists(parts)
                    };
                let parts = seq![head].add(tail_parts);
                let views = parts.map_values(|l: List<B>| l@);
                assert(views.drop_first() =~= tail_parts.map_values(|l: List<B>| l@));
                assert(views.first() == head_view);
                assert forall|i: int| 0 <= i < xs@.len() implies f.ensures(
                    (&xs@[i],),
                    #[trigger] parts[i],
                ) by {
                    if i > 0 {
                        assert(parts[i] == tail_parts[i - 1]);
                    }
                }
                assert(r@ == flatten_lists(parts));
            }
            r
        },
    }
}

/// All suffixes of `xs`, longest first: a clone of `xs` itself, down to the empty list.
pub fn tails<T: Clone>(xs: &List<T>) -> (r: List<List<T>>)
    ensures
        r@.len() == xs@.len() + 1,
        forall|i: int|
            0 <= i < r@.len() ==> is_clone_of(xs@.subrange(i, xs@.len() as int), #[trigger] r@[i]@),
    decreases xs,
{
    match xs {
        List::Nil => {
            let ghost none = List::<List<T>>::Nil;
            let r = List::Cons(List::Nil, Box::new(List::Nil));
            assert(none.to_seq() =~= Seq::<List<T>>::empty());
            assert(r@ =~= seq![List::Nil] + none.to_seq());
            assert(r@[0]@ =~= xs@.subrange(0, 0));
            r
        },
        List::Cons(_, rest) => {
            let whole = xs.clone();
            let tail = tails(rest);
            let r = List::Cons(whole, Box::new(tail));
            assert forall|i: int| 0 <= i < r@.len() implies is_clone_of(
                xs@.subrange(i, xs@.len() as int),
                #[trigger] r@[i]@,
            ) by {
                if i == 0 {
                    assert(xs@.subrange(0, xs@.len() as int) =~= xs@);
                } else {
                    assert(r@[i] == tail@[i - 1]);
                    assert(xs@.subrange(i, xs@.len() as int) =~= rest@.subrange(
                        i - 1,
                        rest@.len() as int,
                    ));
                }
            }
            r
        },
    }
}

} // verus!
