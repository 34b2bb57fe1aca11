//! Fixed-size vectors and matrices with entry-wise operations.
use crate::scalar::Scalar;
use vstd::prelude::*;
use vstd::string::{StrSliceExecFns, StringExecFns};

verus! {

/// A column of `N` entries.
#[derive(Clone, Copy, Debug)]
pub struct Vector<T, const N: usize>(pub [T; N]);

/// `M` rows of `N` entries.
#[derive(Clone, Copy, Debug)]
pub struct Matrix<T, const M: usize, const N: usize>(pub [[T; N]; M]);

impl<T: Scalar, const N: usize> core::ops::Add for Vector<T, N> {
    type Output = Vector<T, N>;

    fn add(self, rhs: Vector<T, N>) -> (r: Vector<T, N>) {
        let mut result = self.0;
        let mut i: usize = 0;
        while i < N
            invariant
                0 <= i <= N,
                forall|p: int| 0 <= p < N ==> T::add_ok(#[trigger] self.0@[p], rhs.0@[p]),
                forall|p: int|
                    0 <= p < N ==> #[trigger] result@[p] == if p < i {
                        T::sum(self.0@[p], rhs.0@[p])
                    } else {
                        self.0@[p]
                    },
            decreases N - i,
        {
            result[i] = T::plus(result[i], rhs.0[i]);
            i = i + 1;
        }
        let r = Vector(result);
        proof {
            let c = choose|c: Vector<T, N>| c.is_sum(self, rhs);
            assert(r.is_sum(self, rhs));
            assert(c.0 =~= r.0);
        }
        r
    }
}

impl<T: Scalar, const N: usize> vstd::std_specs::ops::AddSpecImpl for Vector<T, N> {
    open spec fn obeys_add_spec() -> bool {
        true
    }

    open spec fn add_req(self, rhs: Vector<T, N>) -> bool {
        forall|p: int| 0 <= p < N ==> T::add_ok(#[trigger] self.0@[p], rhs.0@[p])
    }

    open spec fn add_spec(self, rhs: Vector<T, N>) -> Vector<T, N> {
        choose|r: Vector<T, N>| r.is_sum(self, rhs)
    }
}

impl<T: Scalar, const N: usize> Vector<T, N> {
    /// Each entry is the sum of the entries of `a` and `b` at its place.
    pub open spec fn is_sum(self, a: Vector<T, N>, b: Vector<T, N>) -> bool {
        forall|p: int| 0 <= p < N ==> #[trigger] self.0@[p] == T::sum(a.0@[p], b.0@[p])
    }
}

impl<T: Scalar, const N: usize> Vector<T, N> {
    /// Each entry is `s` times the entry of `a` at its place.
    pub open spec fn is_scaled(self, a: Vector<T, N>, s: T) -> bool {
        forall|p: int| 0 <= p < N ==> #[trigger] self.0@[p] == T::product(s, a.0@[p])
    }

    /// Each entry is the negation of the entry of `a` at its place.
    pub open spec fn is_negation(self, a: Vector<T, N>) -> bool {
        forall|p: int| 0 <= p < N ==> #[trigger] self.0@[p] == T::negation(a.0@[p])
    }

    /// The vector whose entries are all zero.
    pub fn zero() -> (r: Vector<T, N>)
        ensures
            forall|p: int| 0 <= p < N ==> #[trigger] r.0@[p] == T::zero_spec(),
    {
        Vector(vstd::array::array_fill_for_copy_types(T::zero()))
    }

    /// Whether every entry is zero.
    pub fn is_zero(&self) -> (r: bool)
        ensures
            r == forall|p: int| 0 <= p < N ==> #[trigger] self.0@[p] == T::zero_spec(),
    {
        let z = T::zero();
        let mut i: usize = 0;
        while i < N
            invariant
                0 <= i <= N,
                z == T::zero_spec(),
                forall|p: int| 0 <= p < i ==> #[trigger] self.0@[p] == T::zero_spec(),
            decreases N - i,
        {
            if !T::same(&self.0[i], &z) {
                return false;
            }
            i = i + 1;
        }
        true
    }

    /// The vector drawn as a bracketed column, each entry padded with spaces
    /// to the width of the widest.
    pub fn to_text(&self) -> (r: String)
        ensures
            r@ == column_text(self.0@.map_values(|x: T| T::text(x))),
    {
        let ghost cells = self.0@.map_values(|x: T| T::text(x));
        let mut longest: usize = 0;
        let mut i: usize = 0;
        while i < N
            invariant
                0 <= i <= N,
                cells == self.0@.map_values(|x: T| T::text(x)),
                longest == widest(cells.take(i as int)),
            decreases N - i,
        {
            let s = self.0[i].render();
            let len = s.as_str().unicode_len();
            proof {
                assert(cells.take(i + 1).drop_last() =~= cells.take(i as int));
            }
            if len > longest {
                longest = len;
            }
            i = i + 1;
        }
        proof {
            assert(cells.take(N as int) =~= cells);
        }
        let mut out = String::new();
        out.append("┌ ");
        push_spaces(&mut out, longest);
        out.append(" ┐");
        let ghost head = out@;
        let mut i: usize = 0;
        while i < N
            invariant
                0 <= i <= N,
                cells == self.0@.map_values(|x: T| T::text(x)),
                longest == widest(cells),
                out@ == head + rows_text(cells.take(i as int), longest as nat),
            decreases N - i,
        {
            let s = self.0[i].render();
            let len = s.as_str().unicode_len();
            proof {
                lemma_widest(cells, i as int);
                assert(cells.take(i + 1).drop_last() =~= cells.take(i as int));
            }
            out.append("\n│ ");
            out.append(s.as_str());
            push_spaces(&mut out, longest - len);
            out.append(" │");
            i = i + 1;
        }
        proof {
            assert(cells.take(N as int) =~= cells);
        }
        out.append("\n└ ");
        push_spaces(&mut out, longest);
        out.append(" ┘");
        proof {
            reveal_strlit("┌ ");
            reveal_strlit(" ┐");
            reveal_strlit("\n└ ");
            reveal_strlit(" ┘");
            reveal_strlit("┌");
            reveal_strlit("┐");
            reveal_strlit("\n└");
            reveal_strlit("┘");
        }
        assert(out@ =~= column_text(cells));
        out
    }
}

/// `k` spaces.
pub open spec fn spaces(k: nat) -> Seq<char> {
    Seq::new(k, |i: int| ' ')
}

/// The greatest length among `cells`, zero when there are none.
pub open spec fn widest(cells: Seq<Seq<char>>) -> nat
    decreases cells.len(),
{
    if cells.len() == 0 {
        0
    } else {
        let w = widest(cells.drop_last());
        if cells.last().len() > w {
            cells.last().len()
        } else {
            w
        }
    }
}

/// One line per cell, each padded with spaces to `w` characters.
pub open spec fn rows_text(cells: Seq<Seq<char>>, w: nat) -> Seq<char>
    decreases cells.len(),
{
    if cells.len() == 0 {
        Seq::empty()
    } else {
        rows_text(cells.drop_last(), w) + "\n│ "@ + cells.last() + spaces(
            (w - cells.last().len()) as nat,
        ) + " │"@
    }
}

/// The cells as a column between brackets drawn with box characters.
pub open spec fn column_text(cells: Seq<Seq<char>>) -> Seq<char> {
    let w = widest(cells);
    "┌"@ + spaces(w + 2) + "┐"@ + rows_text(cells, w) + "\n└"@ + spaces(w + 2) + "┘"@
}

proof fn lemma_widest(cells: Seq<Seq<char>>, i: int)
    requires
        0 <= i < cells.len(),
    ensures
        cells[i].len() <= widest(cells),
    decreases cells.len(),
{
    if i < cells.len() - 1 {
        lemma_widest(cells.drop_last(), i);
    }
}

fn push_spaces(out: &mut String, k: usize)
    ensures
        final(out)@ == old(out)@ + spaces(k as nat),
{
    let ghost start = out@;
    let mut i: usize = 0;
    while i < k
        invariant
            i <= k,
            out@ == start + spaces(i as nat),
        decreases k - i,
    {
        out.append(" ");
        proof {
            reveal_strlit(" ");
        }
        assert(out@ =~= start + spaces((i + 1) as nat));
        i = i + 1;
    }
}

impl<T: Scalar, const N: usize> core::ops::Mul<T> for Vector<T, N> {
    type Output = Vector<T, N>;

    fn mul(self, rhs: T) -> (r: Vector<T, N>) {
        let mut result = self.0;
        let mut i: usize = 0;
        while i < N
            invariant
                0 <= i <= N,
                forall|p: int| 0 <= p < N ==> T::mul_ok(rhs, #[trigger] self.0@[p]),
                forall|p: int|
                    0 <= p < N ==> #[trigger] result@[p] == if p < i {
                        T::product(rhs, self.0@[p])
                    } else {
                        self.0@[p]
                    },
            decreases N - i,
        {
            result[i] = T::times(rhs, result[i]);
            i = i + 1;
        }
        let r = Vector(result);
        proof {
            let c = choose|c: Vector<T, N>| c.is_scaled(self, rhs);
            assert(r.is_scaled(self, rhs));
            assert(c.0 =~= r.0);
        }
        r
    }
}

impl<T: Scalar, const N: usize> vstd::std_specs::ops::MulSpecImpl<T> for Vector<T, N> {
    open spec fn obeys_mul_spec() -> bool {
        true
    }

    open spec fn mul_req(self, rhs: T) -> bool {
        forall|p: int| 0 <= p < N ==> T::mul_ok(rhs, #[trigger] self.0@[p])
    }

    open spec fn mul_spec(self, rhs: T) -> Vector<T, N> {
        choose|r: Vector<T, N>| r.is_scaled(self, rhs)
    }
}

impl<T: Scalar, const N: usize> core::ops::Neg for Vector<T, N> {
    type Output = Vector<T, N>;

    fn neg(self) -> (r: Vector<T, N>) {
        let mut result = self.0;
        let mut i: usize = 0;
        while i < N
            invariant
                0 <= i <= N,
                forall|p: int| 0 <= p < N ==> T::neg_ok(#[trigger] self.0@[p]),
                forall|p: int|
                    0 <= p < N ==> #[trigger] result@[p] == if p < i {
                        T::negation(self.0@[p])
                    } else {
                        self.0@[p]
                    },
            decreases N - i,
        {
            result[i] = T::negate(result[i]);
            i = i + 1;
        }
        let r = Vector(result);
        proof {
            let c = choose|c: Vector<T, N>| c.is_negation(self);
            assert(r.is_negation(self));
            assert(c.0 =~= r.0);
        }
        r
    }
}

impl<T: Scalar, const N: usize> vstd::std_specs::ops::NegSpecImpl for Vector<T, N> {
    open spec fn obeys_neg_spec() -> bool {
        true
    }

    open spec fn neg_req(self) -> bool {
        forall|p: int| 0 <= p < N ==> T::neg_ok(#[trigger] self.0@[p])
    }

    open spec fn neg_spec(self) -> Vector<T, N> {
        choose|r: Vector<T, N>| r.is_negation(self)
    }
}

impl<T: Scalar, const N: usize> PartialEq for Vector<T, N> {
    fn eq(&self, other: &Vector<T, N>) -> (r: bool) {
        let mut i: usize = 0;
        while i < N
            invariant
                0 <= i <= N,
                forall|p: int| 0 <= p < i ==> #[trigger] self.0@[p] == other.0@[p],
            decreases N - i,
        {
            if !T::same(&self.0[i], &other.0[i]) {
                return false;
            }
            i = i + 1;
        }
        assert(self.0@ =~= other.0@);
        true
    }
}

impl<T: Scalar, const N: usize> vstd::std_specs::cmp::PartialEqSpecImpl for Vector<T, N> {
    open spec fn obeys_eq_spec() -> bool {
        true
    }

    open spec fn eq_spec(&self, other: &Vector<T, N>) -> bool {
        self.0@ == other.0@
    }
}

impl<T: Scalar, const M: usize, const N: usize> Matrix<T, M, N> {
    /// Each entry is the sum of the entries of `a` and `b` at its place.
    pub open spec fn is_sum(self, a: Matrix<T, M, N>, b: Matrix<T, M, N>) -> bool {
        forall|p: int, q: int|
            0 <= p < M && 0 <= q < N ==> #[trigger] self.0@[p]@[q] == T::sum(
                a.0@[p]@[q],
                b.0@[p]@[q],
            )
    }

    /// Each entry is `s` times the entry of `a` at its place.
    pub open spec fn is_scaled(self, a: Matrix<T, M, N>, s: T) -> bool {
        forall|p: int, q: int|
            0 <= p < M && 0 <= q < N ==> #[trigger] self.0@[p]@[q] == T::product(s, a.0@[p]@[q])
    }

    /// The two matrices have equal entries at every place.
    pub open spec fn same_entries(self, other: Matrix<T, M, N>) -> bool {
        forall|p: int, q: int|
            0 <= p < M && 0 <= q < N ==> #[trigger] self.0@[p]@[q] == other.0@[p]@[q]
    }
}

impl<T: Scalar, const M: usize, const N: usize> core::ops::Add for Matrix<T, M, N> {
    type Output = Matrix<T, M, N>;

    fn add(self, rhs: Matrix<T, M, N>) -> (r: Matrix<T, M, N>) {
        let mut result = self.0;
        let mut i: usize = 0;
        while i < M
            invariant
                0 <= i <= M,
                forall|p: int, q: int|
                    0 <= p < M && 0 <= q < N ==> T::add_ok(#[trigger] self.0@[p]@[q], rhs.0@[p]@[q]),
                forall|p: int, q: int|
                    0 <= p < M && 0 <= q < N ==> #[trigger] result@[p]@[q] == if p < i {
                        T::sum(self.0@[p]@[q], rhs.0@[p]@[q])
                    } else {
                        self.0@[p]@[q]
                    },
            decreases M - i,
        {
            let mut row = result[i];
            let mut j: usize = 0;
            while j < N
                invariant
                    0 <= i < M,
                    0 <= j <= N,
                    forall|p: int, q: int|
                        0 <= p < M && 0 <= q < N ==> T::add_ok(
                            #[trigger] self.0@[p]@[q],
                            rhs.0@[p]@[q],
                        ),
                    forall|q: int|
                        0 <= q < N ==> #[trigger] row@[q] == if q < j {
                            T::sum(self.0@[i as int]@[q], rhs.0@[i as int]@[q])
                        } else {
                            self.0@[i as int]@[q]
                        },
                decreases N - j,
            {
                row[j] = T::plus(row[j], rhs.0[i][j]);
                j = j + 1;
            }
            result[i] = row;
            i = i + 1;
        }
        let r = Matrix(result);
        proof {
            let c = choose|c: Matrix<T, M, N>| c.is_sum(self, rhs);
            assert(r.is_sum(self, rhs));
            assert forall|p: int| 0 <= p < M implies #[trigger] c.0@[p] == r.0@[p] by {
                assert(c.0@[p] =~= r.0@[p]);
            }
            assert(c.0 =~= r.0);
        }
        r
    }
}

impl<T: Scalar, const M: usize, const N: usize> vstd::std_specs::ops::AddSpecImpl for Matrix<T, M, N> {
    open spec fn obeys_add_spec() -> bool {
        true
    }

    open spec fn add_req(self, rhs: Matrix<T, M, N>) -> bool {
        forall|p: int, q: int|
            0 <= p < M && 0 <= q < N ==> T::add_ok(#[trigger] self.0@[p]@[q], rhs.0@[p]@[q])
    }

    open spec fn add_spec(self, rhs: Matrix<T, M, N>) -> Matrix<T, M, N> {
        choose|r: Matrix<T, M, N>| r.is_sum(self, rhs)
    }
}

impl<T: Scalar, const M: usize, const N: usize> core::ops::Mul<T> for Matrix<T, M, N> {
    type Output = Matrix<T, M, N>;

    fn mul(self, rhs: T) -> (r: Matrix<T, M, N>) {
        let mut result = self.0;
        let mut i: usize = 0;
        while i < M
            invariant
                0 <= i <= M,
                forall|p: int, q: int|
                    0 <= p < M && 0 <= q < N ==> T::mul_ok(rhs, #[trigger] self.0@[p]@[q]),
                forall|p: int, q: int|
                    0 <= p < M && 0 <= q < N ==> #[trigger] result@[p]@[q] == if p < i {
                        T::product(rhs, self.0@[p]@[q])
                    } else {
                        self.0@[p]@[q]
                    },
            decreases M - i,
        {
            let mut row = result[i];
            let mut j: usize = 0;
            while j < N
                invariant
                    0 <= i < M,
                    0 <= j <= N,
                    forall|p: int, q: int|
                        0 <= p < M && 0 <= q < N ==> T::mul_ok(rhs, #[trigger] self.0@[p]@[q]),
                    forall|q: int|
                        0 <= q < N ==> #[trigger] row@[q] == if q < j {
                            T::product(rhs, self.0@[i as int]@[q])
                        } else {
                            self.0@[i as int]@[q]
                        },
                decreases N - j,
            {
                row[j] = T::times(rhs, row[j]);
                j = j + 1;
            }
            result[i] = row;
            i = i + 1;
        }
        let r = Matrix(result);
        proof {
            let c = choose|c: Matrix<T, M, N>| c.is_scaled(self, rhs);
            assert(r.is_scaled(self, rhs));
            assert forall|p: int| 0 <= p < M implies #[trigger] c.0@[p] == r.0@[p] by {
                assert(c.0@[p] =~= r.0@[p]);
            }
            assert(c.0 =~= r.0);
        }
        r
    }
}

impl<T: Scalar, const M: usize, const N: usize> vstd::std_specs::ops::MulSpecImpl<T> for Matrix<T, M, N> {
    open spec fn obeys_mul_spec() -> bool {
        true
    }

    open spec fn mul_req(self, rhs: T) -> bool {
        forall|p: int, q: int|
            0 <= p < M && 0 <= q < N ==> T::mul_ok(rhs, #[trigger] self.0@[p]@[q])
    }

    open spec fn mul_spec(self, rhs: T) -> Matrix<T, M, N> {
        choose|r: Matrix<T, M, N>| r.is_scaled(self, rhs)
    }
}

impl<T: Scalar, const M: usize, const N: usize> PartialEq for Matrix<T, M, N> {
    fn eq(&self, other: &Matrix<T, M, N>) -> (r: bool) {
        let mut i: usize = 0;
        while i < M
            invariant
                0 <= i <= M,
                forall|p: int, q: int|
                    0 <= p < i && 0 <= q < N ==> #[trigger] self.0@[p]@[q] == other.0@[p]@[q],
            decreases M - i,
        {
            let mut j: usize = 0;
            while j < N
                invariant
                    0 <= i < M,
                    0 <= j <= N,
                    forall|p: int, q: int|
                        0 <= p < i && 0 <= q < N ==> #[trigger] self.0@[p]@[q] == other.0@[p]@[q],
                    forall|q: int|
                        0 <= q < j ==> #[trigger] self.0@[i as int]@[q] == other.0@[i as int]@[q],
                decreases N - j,
            {
                if !T::same(&self.0[i][j], &other.0[i][j]) {
                    return false;
                }
                j = j + 1;
            }
            i = i + 1;
        }
        true
    }
}

impl<T: Scalar, const M: usize, const N: usize> vstd::std_specs::cmp::PartialEqSpecImpl for Matrix<T, M, N> {
    open spec fn obeys_eq_spec() -> bool {
        true
    }

    open spec fn eq_spec(&self, other: &Matrix<T, M, N>) -> bool {
        self.same_entries(*other)
    }
}

} // verus!
