//! Fixed-capacity, partially filled arrays.
//!
//! [`PartialArray<T, N>`] owns storage for exactly `N` slots of which a
//! contiguous prefix of `filled` slots holds values; the rest hold nothing.
//! It behaves like a bounded sequence without dynamic growth: bulk insertion
//! reports an overflow error instead of allocating more room.
//!
//! The abstract content of a container is its view `self@`, the sequence of
//! the `filled` values in insertion order. Every operation's contract is
//! stated over that view.

use vstd::prelude::*;
use vstd::std_specs::cmp::PartialEqSpec;
use vstd::string::StringExecFns;

pub mod iter;

verus! {

/// A failed container operation.
///
/// Both variants report contract violations by the caller; neither is a
/// transient condition that a retry could mend.
#[derive(Debug, PartialEq, Eq, Structural)]
pub enum Error {
    /// A bulk insertion offered more elements than the free slots could take;
    /// `excess` counts the elements that found no slot.
    Overflow { excess: usize },
    /// An access at `index` reached at or past the filled prefix of length
    /// `len`; slots past the prefix hold no value, whatever the capacity.
    IndexOutOfBounds { index: usize, len: usize },
}

/// A fixed block of `N` slots of which the first `filled` hold values.
///
/// The slots are modelled as one optional value each: a slot of the filled
/// prefix holds `Some`, and no operation ever reads a value out of the
/// remaining slots. The container never holds more than `N` elements;
/// offering more is an [`Error::Overflow`].
#[derive(Debug)]
pub struct PartialArray<T, const N: usize> {
    /// How many slots, counted from index 0, hold values.
    filled: usize,
    /// The `N` slots. Exactly the first `filled` of them are `Some`.
    array: Vec<Option<T>>,
}

impl<T, const N: usize> PartialArray<T, N> {
    /// Slot discipline: there are exactly `N` slots, the filled count stays
    /// within them, and every slot of the filled prefix holds a value.
    #[verifier::type_invariant]
    spec fn wf(self) -> bool {
        &&& self.array@.len() == N
        &&& self.filled <= N
        &&& forall|i: int| 0 <= i < self.filled ==> self.array@[i] is Some
    }
}

impl<T, const N: usize> View for PartialArray<T, N> {
    type V = Seq<T>;

    /// The filled prefix, in insertion order.
    closed spec fn view(&self) -> Seq<T> {
        Seq::new(self.filled as nat, |i: int| self.array@[i].unwrap())
    }
}

/// A block of `n` empty slots.
fn empty_slots<T>(n: usize) -> (v: Vec<Option<T>>)
    ensures
        v@.len() == n,
        forall|i: int| 0 <= i < n ==> v@[i] is None,
{
    let mut v: Vec<Option<T>> = Vec::new();
    while v.len() < n
        invariant
            v@.len() <= n,
            forall|i: int| 0 <= i < v@.len() ==> v@[i] is None,
        decreases n - v@.len(),
    {
        v.push(None);
    }
    v
}

impl<T, const N: usize> Default for PartialArray<T, N> {
    /// The empty container: no slot filled.
    fn default() -> (r: Self)
        ensures
            r@ == Seq::<T>::empty(),
    {
        let r = PartialArray { filled: 0, array: empty_slots(N) };
        proof {
            assert(r@ =~= Seq::<T>::empty());
        }
        r
    }
}

impl<T, const N: usize> PartialArray<T, N> {
    /// Hand the fill count and the slots over to a new owner, giving up this
    /// container's own responsibility for them.
    pub(crate) fn into_parts(self) -> (r: (usize, Vec<Option<T>>))
        ensures
            r.0 == self@.len(),
            r.0 <= N,
            r.1@.len() == N,
            forall|i: int| 0 <= i < r.0 ==> (#[trigger] r.1@[i]) is Some && r.1@[i].unwrap() == self@[i],
    {
        proof {
            use_type_invariant(&self);
        }
        let PartialArray { filled, array } = self;
        (filled, array)
    }

    /// The number of filled slots, never more than `N`.
    pub fn len(&self) -> (r: usize)
        ensures
            r == self@.len(),
            r <= N,
    {
        proof {
            use_type_invariant(self);
        }
        self.filled
    }

    /// Append every element of `items`, in order, to the filled prefix.
    ///
    /// If the free slots do not suffice, the ones that exist are still filled,
    /// in order, and the call reports how many elements were left over; the
    /// elements inserted before the overflow stay inserted.
    pub fn extend(&mut self, items: Vec<T>) -> (r: Result<(), Error>)
        ensures
            old(self)@.len() + items@.len() <= N ==> {
                &&& r is Ok
                &&& final(self)@ == old(self)@ + items@
            },
            old(self)@.len() + items@.len() > N ==> {
                &&& r == Err::<(), Error>(
                    Error::Overflow { excess: (old(self)@.len() + items@.len() - N) as usize },
                )
                &&& final(self)@ == old(self)@ + items@.take(N - old(self)@.len())
            },
    {
        proof {
            use_type_invariant(&*self);
        }
        let mut items = items;
        let ghost orig = items@;
        let ghost start = self@;
        let mut taken: usize = 0;
        while items.len() > 0 && self.len() < N
            invariant
                taken <= orig.len(),
                taken == orig.len() - items@.len(),
                items@ == orig.subrange(taken as int, orig.len() as int),
                self@ == start + orig.take(taken as int),
                self@.len() == start.len() + taken,
            decreases items@.len(),
        {
            let ghost pre = self@;
            let ghost t0 = taken as int;
            let x = items.remove(0);
            proof {
                use_type_invariant(&*self);
                assert(x == orig[t0]);
            }
            let idx = self.filled;
            self.array[idx] = Some(x);
            self.filled = idx + 1;
            taken = taken + 1;
            proof {
                assert(items@ =~= orig.subrange(taken as int, orig.len() as int));
                assert(self@ =~= pre.push(x));
                assert(start + orig.take(t0 + 1) =~= (start + orig.take(t0)).push(orig[t0]));
                assert(self@ =~= start + orig.take(taken as int));
            }
        }
        if items.len() > 0 {
            proof {
                use_type_invariant(&*self);
                assert(self@.len() == N);
                assert(taken == N - start.len());
                assert(orig.take(taken as int) =~= orig.take(N - start.len()));
            }
            Err(Error::Overflow { excess: items.len() })
        } else {
            proof {
                use_type_invariant(&*self);
                assert(orig.take(taken as int) =~= orig);
            }
            Ok(())
        }
    }

    /// Build a container by draining `items` into the slots, in order.
    ///
    /// Succeeds exactly when the elements fit the capacity; otherwise reports
    /// how many of them were in excess of `N`.
    pub fn from_iter(items: Vec<T>) -> (r: Result<Self, Error>)
        ensures
            items@.len() <= N ==> (r matches Ok(a) && a@ == items@),
            items@.len() > N ==> r == Err::<Self, Error>(
                Error::Overflow { excess: (items@.len() - N) as usize },
            ),
    {
        let mut a = Self::default();
        match a.extend(items) {
            Ok(()) => Ok(a),
            Err(e) => Err(e),
        }
    }

    /// Move every element of a complete fixed-size source into the slots;
    /// the result is filled entirely.
    pub fn from(source: [T; N]) -> (r: Self)
        ensures
            r@ == source@,
    {
        let mut vals = vec_from_array(source);
        let mut array: Vec<Option<T>> = Vec::with_capacity(N);
        while vals.len() > 0
            invariant
                array@.len() + vals@.len() == N,
                vals@ == source@.subrange(array@.len() as int, N as int),
                forall|i: int|
                    0 <= i < array@.len()
                        ==> (#[trigger] array@[i]) is Some && array@[i].unwrap() == source@[i],
            decreases vals@.len(),
        {
            let x = vals.remove(0);
            array.push(Some(x));
            proof {
                assert(vals@ =~= source@.subrange(array@.len() as int, N as int));
            }
        }
        let r = PartialArray { filled: N, array };
        proof {
            assert(r@ =~= source@);
        }
        r
    }

    /// A reference to the element at `i`, which must lie in the filled prefix.
    pub fn index(&self, i: usize) -> (r: &T)
        requires
            i < self@.len(),
        ensures
            *r == self@[i as int],
    {
        proof {
            use_type_invariant(self);
        }
        self.array[i].as_ref().unwrap()
    }

    /// A reference to the element at `i`, or the out-of-bounds report naming
    /// `i` and the filled length if `i` lies at or past the filled prefix --
    /// even when `i` is still within the capacity.
    pub fn try_get(&self, i: usize) -> (r: Result<&T, Error>)
        ensures
            i < self@.len() ==> (r matches Ok(v) && *v == self@[i as int]),
            i >= self@.len() ==> r == Err::<&T, Error>(
                Error::IndexOutOfBounds { index: i, len: self@.len() as usize },
            ),
    {
        proof {
            use_type_invariant(self);
        }
        if i < self.filled {
            Ok(self.index(i))
        } else {
            Err(Error::IndexOutOfBounds { index: i, len: self.filled })
        }
    }

    /// Replace the element at `i`, which must lie in the filled prefix, by
    /// `value`. The fill count never changes through this.
    pub fn set_at(&mut self, i: usize, value: T)
        requires
            i < old(self)@.len(),
        ensures
            final(self)@ == old(self)@.update(i as int, value),
    {
        proof {
            use_type_invariant(&*self);
        }
        // The slot invariant is checked at every intermediate point, and while
        // the new value is being written the slot's content is indeterminate;
        // so pull the fill boundary below `i` for the write and restore it
        // once the slot demonstrably holds a value again.
        let old_filled = self.filled;
        self.filled = i;
        self.array[i] = Some(value);
        self.filled = old_filled;
        proof {
            assert(self@ =~= old(self)@.update(i as int, value));
        }
    }

    /// Hand the elements over to an owning iterator; the container's own
    /// responsibility for them ends here, so nothing is released twice.
    pub fn into_iter(self) -> (r: iter::IntoIter<T, N>)
        ensures
            r@ == self@,
    {
        iter::IntoIter::new(self)
    }

    /// Drain the container front to back into a vector: the round trip out of
    /// the slots yields exactly the filled prefix, in order.
    pub fn into_vec(self) -> (r: Vec<T>)
        ensures
            r@ == self@,
    {
        let ghost v = self@;
        let mut it = self.into_iter();
        let mut out: Vec<T> = Vec::new();
        let mut done = false;
        while !done
            invariant
                out@ + it@ == v,
                done ==> it@.len() == 0,
            decreases it@.len() + (if done { 0int } else { 1 }),
        {
            match it.next() {
                Some(x) => out.push(x),
                None => done = true,
            }
        }
        proof {
            assert(out@ =~= v);
        }
        out
    }
}

/// Elementwise equality of two sequences under the element type's own `==`:
/// the lengths match and every pair of elements compares equal. Capacity
/// plays no part in this, only the visible elements do.
pub open spec fn seq_eq_spec<T: PartialEq>(a: Seq<T>, b: Seq<T>) -> bool {
    a.len() == b.len() && (forall|i: int| 0 <= i < a.len() ==> a[i].eq_spec(&b[i]))
}

impl<T: PartialEq, const N: usize> PartialArray<T, N> {
    /// Whether the filled prefix equals `other` elementwise; slots past the
    /// filled prefix are invisible to the comparison.
    pub fn eq_slice(&self, other: &[T]) -> (r: bool)
        ensures
            T::obeys_eq_spec() ==> r == seq_eq_spec(self@, other@),
    {
        let n = self.len();
        if n != other.len() {
            return false;
        }
        let mut i: usize = 0;
        while i < n
            invariant
                n == self@.len() == other@.len(),
                i <= n,
                T::obeys_eq_spec() ==> forall|j: int| 0 <= j < i ==> self@[j].eq_spec(&other@[j]),
            decreases n - i,
        {
            if !(*self.index(i) == other[i]) {
                return false;
            }
            i = i + 1;
        }
        true
    }

    /// Whether the filled prefixes of two containers, of possibly different
    /// capacities, are equal elementwise.
    pub fn eq_container<const M: usize>(&self, other: &PartialArray<T, M>) -> (r: bool)
        ensures
            T::obeys_eq_spec() ==> r == seq_eq_spec(self@, other@),
    {
        let n = self.len();
        if n != other.len() {
            return false;
        }
        let mut i: usize = 0;
        while i < n
            invariant
                n == self@.len() == other@.len(),
                i <= n,
                T::obeys_eq_spec() ==> forall|j: int| 0 <= j < i ==> self@[j].eq_spec(&other@[j]),
            decreases n - i,
        {
            if !(*self.index(i) == *other.index(i)) {
                return false;
            }
            i = i + 1;
        }
        true
    }
}

impl<T: PartialEq, const N: usize, const M: usize> PartialEq<PartialArray<T, M>> for PartialArray<T, N> {
    /// Containers of any two capacities compare by their filled prefixes.
    fn eq(&self, other: &PartialArray<T, M>) -> (r: bool) {
        self.eq_container(other)
    }
}

impl<T: PartialEq, const N: usize, const M: usize> vstd::std_specs::cmp::PartialEqSpecImpl<PartialArray<T, M>> for PartialArray<T, N> {
    open spec fn obeys_eq_spec() -> bool {
        T::obeys_eq_spec()
    }

    open spec fn eq_spec(&self, other: &PartialArray<T, M>) -> bool {
        seq_eq_spec(self@, other@)
    }
}

impl<T: PartialEq + Eq, const N: usize> Eq for PartialArray<T, N> {
}

impl<T: PartialEq, const N: usize, const M: usize> PartialEq<[T; M]> for PartialArray<T, N> {
    /// A container and a plain array compare by the filled prefix against the
    /// whole array.
    fn eq(&self, other: &[T; M]) -> (r: bool) {
        self.eq_slice(other.as_slice())
    }
}

impl<T: PartialEq, const N: usize, const M: usize> vstd::std_specs::cmp::PartialEqSpecImpl<[T; M]> for PartialArray<T, N> {
    open spec fn obeys_eq_spec() -> bool {
        T::obeys_eq_spec()
    }

    open spec fn eq_spec(&self, other: &[T; M]) -> bool {
        seq_eq_spec(self@, other@)
    }
}

impl<T: PartialEq, const N: usize, const M: usize> PartialEq<PartialArray<T, M>> for [T; N] {
    /// A plain array and a container compare the same way around.
    fn eq(&self, other: &PartialArray<T, M>) -> (r: bool) {
        other.eq_slice(self.as_slice())
    }
}

impl<T: PartialEq, const N: usize, const M: usize> vstd::std_specs::cmp::PartialEqSpecImpl<PartialArray<T, M>> for [T; N] {
    open spec fn obeys_eq_spec() -> bool {
        T::obeys_eq_spec()
    }

    open spec fn eq_spec(&self, other: &PartialArray<T, M>) -> bool {
        seq_eq_spec(other@, self@)
    }
}

impl<'a, T: PartialEq, const N: usize> PartialEq<&'a [T]> for PartialArray<T, N> {
    /// A container and a borrowed slice compare by the filled prefix against
    /// the whole slice.
    fn eq(&self, other: &&'a [T]) -> (r: bool) {
        self.eq_slice(other)
    }
}

impl<'a, T: PartialEq, const N: usize> vstd::std_specs::cmp::PartialEqSpecImpl<&'a [T]> for PartialArray<T, N> {
    open spec fn obeys_eq_spec() -> bool {
        T::obeys_eq_spec()
    }

    open spec fn eq_spec(&self, other: &&'a [T]) -> bool {
        seq_eq_spec(self@, other@)
    }
}

impl<'a, T: PartialEq, const N: usize> PartialEq<PartialArray<T, N>> for &'a [T] {
    /// A borrowed slice and a container compare the same way around.
    fn eq(&self, other: &PartialArray<T, N>) -> (r: bool) {
        other.eq_slice(self)
    }
}

impl<'a, T: PartialEq, const N: usize> vstd::std_specs::cmp::PartialEqSpecImpl<PartialArray<T, N>> for &'a [T] {
    open spec fn obeys_eq_spec() -> bool {
        T::obeys_eq_spec()
    }

    open spec fn eq_spec(&self, other: &PartialArray<T, N>) -> bool {
        seq_eq_spec(other@, self@)
    }
}

/// Relies on the std conversion of a fixed-size array into a vector
/// (`impl From<[T; N]> for Vec<T>`): the vector holds exactly the array's
/// elements, in order.
#[verifier::external_body]
fn vec_from_array<T, const N: usize>(a: [T; N]) -> (v: Vec<T>)
    ensures
        v@ == a@,
{
    Vec::from(a)
}

/// The character for one decimal digit.
pub open spec fn spec_digit(d: int) -> char {
    if d == 0 {
        '0'
    } else if d == 1 {
        '1'
    } else if d == 2 {
        '2'
    } else if d == 3 {
        '3'
    } else if d == 4 {
        '4'
    } else if d == 5 {
        '5'
    } else if d == 6 {
        '6'
    } else if d == 7 {
        '7'
    } else if d == 8 {
        '8'
    } else {
        '9'
    }
}

/// The decimal digits of `n`, most significant first, without leading zeros
/// (a lone zero for zero itself).
pub open spec fn spec_decimal(n: int) -> Seq<char>
    decreases n,
{
    if n < 10 {
        seq![spec_digit(n)]
    } else {
        spec_decimal(n / 10).push(spec_digit(n % 10))
    }
}

/// The elements' decimal renderings, separated by comma and space.
pub open spec fn spec_render_items(s: Seq<u8>) -> Seq<char>
    decreases s.len(),
{
    if s.len() == 0 {
        Seq::empty()
    } else if s.len() == 1 {
        spec_decimal(s[0] as int)
    } else {
        spec_decimal(s[0] as int) + seq![',', ' '] + spec_render_items(s.drop_first())
    }
}

/// The text of a sequence of byte-sized values: the decimal elements,
/// separated by comma and space, between square brackets.
pub open spec fn spec_render(s: Seq<u8>) -> Seq<char> {
    seq!['['] + spec_render_items(s) + seq![']']
}

/// The str holding one decimal digit.
fn digit_str(d: u8) -> (r: &'static str)
    requires
        d < 10,
    ensures
        r@ == seq![spec_digit(d as int)],
{
    proof {
        reveal_strlit("0");
        reveal_strlit("1");
        reveal_strlit("2");
        reveal_strlit("3");
        reveal_strlit("4");
        reveal_strlit("5");
        reveal_strlit("6");
        reveal_strlit("7");
        reveal_strlit("8");
        reveal_strlit("9");
    }
    match d {
        0 => "0",
        1 => "1",
        2 => "2",
        3 => "3",
        4 => "4",
        5 => "5",
        6 => "6",
        7 => "7",
        8 => "8",
        _ => "9",
    }
}

/// Append the decimal rendering of `n` to `out`.
pub(crate) fn push_decimal(out: &mut String, n: u8)
    ensures
        final(out)@ == old(out)@ + spec_decimal(n as int),
{
    if n >= 100 {
        out.append(digit_str(n / 100));
    }
    if n >= 10 {
        out.append(digit_str((n / 10) % 10));
    }
    out.append(digit_str(n % 10));
    proof {
        let ni = n as int;
        if ni < 10 {
            assert(out@ =~= old(out)@ + spec_decimal(ni));
        } else if ni < 100 {
            assert(spec_decimal(ni / 10) =~= seq![spec_digit(ni / 10)]);
            assert(spec_decimal(ni) =~= seq![spec_digit(ni / 10), spec_digit(ni % 10)]);
            assert(out@ =~= old(out)@ + spec_decimal(ni));
        } else {
            assert(ni / 10 / 10 == ni / 100) by (nonlinear_arith)
                requires
                    100 <= ni <= 255,
            ;
            assert(spec_decimal(ni / 100) =~= seq![spec_digit(ni / 100)]);
            assert(spec_decimal(ni / 10) =~= seq![
                spec_digit(ni / 100),
                spec_digit(ni / 10 % 10),
            ]);
            assert(spec_decimal(ni) =~= seq![
                spec_digit(ni / 100),
                spec_digit(ni / 10 % 10),
                spec_digit(ni % 10),
            ]);
            assert(out@ =~= old(out)@ + spec_decimal(ni));
        }
    }
}

/// Appending one more element extends the rendered item list by a separator
/// — when something came before — and the element's decimal text.
pub(crate) proof fn lemma_render_items_push(s: Seq<u8>, x: u8)
    ensures
        spec_render_items(s.push(x)) == if s.len() == 0 {
            spec_decimal(x as int)
        } else {
            spec_render_items(s) + seq![',', ' '] + spec_decimal(x as int)
        },
    decreases s.len(),
{
    let grown = s.push(x);
    if s.len() == 0 {
        assert(grown.len() == 1 && grown[0] == x);
    } else {
        assert(grown.drop_first() =~= s.drop_first().push(x));
        lemma_render_items_push(s.drop_first(), x);
        assert(spec_render_items(grown) =~= spec_render_items(s) + seq![',', ' ']
            + spec_decimal(x as int));
    }
}

impl<const N: usize> PartialArray<u8, N> {
    /// The filled prefix as text: the decimal elements, separated by comma
    /// and space, between square brackets. Unfilled capacity never shows.
    pub fn render(&self) -> (r: String)
        ensures
            r@ == spec_render(self@),
    {
        let n = self.len();
        let mut s = String::new();
        s.append("[");
        proof {
            reveal_strlit("[");
            assert(s@ =~= seq!['['] + spec_render_items(self@.take(0)));
        }
        let mut i: usize = 0;
        while i < n
            invariant
                n == self@.len(),
                i <= n,
                s@ == seq!['['] + spec_render_items(self@.take(i as int)),
            decreases n - i,
        {
            if i > 0 {
                s.append(", ");
            }
            push_decimal(&mut s, *self.index(i));
            proof {
                reveal_strlit(", ");
                lemma_render_items_push(self@.take(i as int), self@[i as int]);
                assert(self@.take(i as int + 1) =~= self@.take(i as int).push(self@[i as int]));
                assert(s@ =~= seq!['['] + spec_render_items(self@.take(i as int + 1)));
            }
            i = i + 1;
        }
        s.append("]");
        proof {
            reveal_strlit("]");
            assert(self@.take(n as int) =~= self@);
            assert(s@ =~= spec_render(self@));
        }
        s
    }
}

} // verus!
