//! The zero-one-many semiring of resource multiplicities, and usage vectors.
use vstd::prelude::*;

verus! {

/// A resource multiplicity from the zero-one-many semiring {0, 1, w}.
///
/// `Zero` erases a variable, `One` demands it be used exactly once, and
/// `Many` permits any number of uses.
#[derive(Clone, Copy, Debug, PartialEq, Eq, Structural)]
pub enum Mult {
    Zero,
    One,
    Many,
}

impl Mult {
    /// Semiring addition: combine the demands of two independent positions.
    pub open spec fn plus(self, other: Mult) -> Mult {
        match (self, other) {
            (Mult::Zero, m) => m,
            (m, Mult::Zero) => m,
            _ => Mult::Many,
        }
    }

    /// Semiring multiplication: scale a usage by how often its context runs.
    pub open spec fn times(self, other: Mult) -> Mult {
        match (self, other) {
            (Mult::Zero, _) => Mult::Zero,
            (_, Mult::Zero) => Mult::Zero,
            (Mult::One, m) => m,
            (m, Mult::One) => m,
            (Mult::Many, Mult::Many) => Mult::Many,
        }
    }

    /// `Many` is a wildcard budget; `Zero` and `One` must be met exactly.
    pub open spec fn fits_in(self, budget: Mult) -> bool {
        budget == Mult::Many || self == budget
    }

    /// The surface spelling of a multiplicity.
    pub open spec fn text(self) -> Seq<char> {
        match self {
            Mult::Zero => seq!['0'],
            Mult::One => seq!['1'],
            Mult::Many => seq!['w'],
        }
    }

    /// Semiring addition; 1 + 1 = w because two linear uses are no longer linear.
    pub fn add(self, other: Self) -> (r: Self)
        ensures
            r == self.plus(other),
    {
        match (self, other) {
            (Mult::Zero, m) => m,
            (m, Mult::Zero) => m,
            _ => Mult::Many,
        }
    }

    /// Semiring multiplication: absorbing at `Zero`, identity at `One`.
    pub fn mul(self, other: Self) -> (r: Self)
        ensures
            r == self.times(other),
    {
        match (self, other) {
            (Mult::Zero, _) => Mult::Zero,
            (_, Mult::Zero) => Mult::Zero,
            (Mult::One, m) => m,
            (m, Mult::One) => m,
            (Mult::Many, Mult::Many) => Mult::Many,
        }
    }

    /// Does an observed usage satisfy a declared budget?
    pub fn fits(self, budget: Self) -> (r: bool)
        ensures
            r == self.fits_in(budget),
    {
        match budget {
            Mult::Many => true,
            other => self == other,
        }
    }

    /// The spelling used when a multiplicity is printed: `0`, `1` or `w`.
    pub fn to_text(self) -> (r: String)
        ensures
            r@ == self.text(),
    {
        let s: &str = match self {
            Mult::Zero => "0",
            Mult::One => "1",
            Mult::Many => "w",
        };
        proof {
            reveal_strlit("0");
            reveal_strlit("1");
            reveal_strlit("w");
        }
        s.to_owned()
    }
}

/// Addition is commutative.
pub proof fn lemma_plus_commutative(a: Mult, b: Mult)
    ensures
        a.plus(b) == b.plus(a),
{
}

/// Addition is associative.
pub proof fn lemma_plus_associative(a: Mult, b: Mult, c: Mult)
    ensures
        a.plus(b).plus(c) == a.plus(b.plus(c)),
{
}

/// `Zero` is the additive identity.
pub proof fn lemma_plus_zero(a: Mult)
    ensures
        a.plus(Mult::Zero) == a,
        Mult::Zero.plus(a) == a,
{
}

/// Multiplication is commutative.
pub proof fn lemma_times_commutative(a: Mult, b: Mult)
    ensures
        a.times(b) == b.times(a),
{
}

/// Multiplication is associative.
pub proof fn lemma_times_associative(a: Mult, b: Mult, c: Mult)
    ensures
        a.times(b).times(c) == a.times(b.times(c)),
{
}

/// `One` is the multiplicative identity and `Zero` annihilates.
pub proof fn lemma_times_one_zero(a: Mult)
    ensures
        a.times(Mult::One) == a,
        Mult::One.times(a) == a,
        a.times(Mult::Zero) == Mult::Zero,
        Mult::Zero.times(a) == Mult::Zero,
{
}

/// Multiplication distributes over addition on both sides.
pub proof fn lemma_times_distributes(a: Mult, b: Mult, c: Mult)
    ensures
        a.times(b.plus(c)) == a.times(b).plus(a.times(c)),
        b.plus(c).times(a) == b.times(a).plus(c.times(a)),
{
}

/// Two linear uses add up to unrestricted use.
pub proof fn lemma_one_plus_one()
    ensures
        Mult::One.plus(Mult::One) == Mult::Many,
{
}

/// `Many` accepts any usage; `Zero` and `One` accept only themselves.
pub proof fn lemma_fits(used: Mult, budget: Mult)
    ensures
        used.fits_in(Mult::Many),
        used.fits_in(Mult::Zero) <==> used == Mult::Zero,
        used.fits_in(Mult::One) <==> used == Mult::One,
        budget != Mult::Many ==> (used.fits_in(budget) <==> used == budget),
{
}

/// A usage vector: one multiplicity per binder in scope, recording how many
/// times each was consumed by a term.
#[derive(Clone, Debug)]
pub struct Use(pub Vec<Mult>);

impl View for Use {
    type V = Seq<Mult>;

    open spec fn view(&self) -> Seq<Mult> {
        self.0@
    }
}

/// `n` zero entries.
pub open spec fn zeros_of(n: nat) -> Seq<Mult> {
    Seq::new(n, |i: int| Mult::Zero)
}

/// The unit vector charging one use to position `ix`.
pub open spec fn unit_of(n: nat, ix: int) -> Seq<Mult> {
    zeros_of(n).update(ix, Mult::One)
}

/// Pointwise sum, as long as the shorter of the two.
pub open spec fn sum_of(a: Seq<Mult>, b: Seq<Mult>) -> Seq<Mult> {
    let n = if a.len() <= b.len() { a.len() } else { b.len() };
    Seq::new(n, |i: int| a[i].plus(b[i]))
}

/// Every entry scaled by `m`.
pub open spec fn scaled(a: Seq<Mult>, m: Mult) -> Seq<Mult> {
    Seq::new(a.len(), |i: int| a[i].times(m))
}

/// The usage of the innermost binder: its last entry, or `Zero` when empty.
pub open spec fn last_or_zero(a: Seq<Mult>) -> Mult {
    if a.len() == 0 {
        Mult::Zero
    } else {
        a.last()
    }
}

/// The vector with its innermost entry removed (empty stays empty).
pub open spec fn outer_of(a: Seq<Mult>) -> Seq<Mult> {
    if a.len() == 0 {
        a
    } else {
        a.drop_last()
    }
}

impl Use {
    /// The usage of `n` variables none of which is used.
    pub fn zeros(n: usize) -> (r: Self)
        ensures
            r@ == zeros_of(n as nat),
    {
        let mut v: Vec<Mult> = Vec::new();
        let mut i: usize = 0;
        while i < n
            invariant
                i <= n,
                v@ == zeros_of(i as nat),
            decreases n - i,
        {
            v.push(Mult::Zero);
            i += 1;
            assert(v@ =~= zeros_of(i as nat));
        }
        Use(v)
    }

    /// The unit vector charging a single use to variable `ix` (a de Bruijn
    /// level), zero everywhere else.
    pub fn one(n: usize, ix: usize) -> (r: Self)
        requires
            ix < n,
        ensures
            r@ == unit_of(n as nat, ix as int),
    {
        let mut v = Self::zeros(n).0;
        v.set(ix, Mult::One);
        Self::from_vec(v)
    }

    fn from_vec(v: Vec<Mult>) -> (r: Self)
        ensures
            r@ == v@,
    {
        Self(v)
    }

    /// Pointwise semiring addition (over the common length).
    pub fn add(&self, other: &Self) -> (r: Self)
        ensures
            r@ == sum_of(self@, other@),
    {
        let n = if self.0.len() <= other.0.len() {
            self.0.len()
        } else {
            other.0.len()
        };
        let mut v: Vec<Mult> = Vec::new();
        let mut i: usize = 0;
        while i < n
            invariant
                i <= n,
                n <= self@.len(),
                n <= other@.len(),
                n == if self@.len() <= other@.len() { self@.len() } else { other@.len() },
                v@ == sum_of(self@, other@).take(i as int),
            decreases n - i,
        {
            v.push(self.0[i].add(other.0[i]));
            i += 1;
            assert(v@ =~= sum_of(self@, other@).take(i as int));
        }
        assert(sum_of(self@, other@).take(n as int) =~= sum_of(self@, other@));
        Self::from_vec(v)
    }

    /// Scale every entry by `m` (the multiplicity at which this term runs).
    pub fn scale(&self, m: Mult) -> (r: Self)
        ensures
            r@ == scaled(self@, m),
    {
        let mut v: Vec<Mult> = Vec::new();
        let mut i: usize = 0;
        while i < self.0.len()
            invariant
                i <= self@.len(),
                v@ == scaled(self@, m).take(i as int),
            decreases self@.len() - i,
        {
            v.push(self.0[i].mul(m));
            i += 1;
            assert(v@ =~= scaled(self@, m).take(i as int));
        }
        assert(scaled(self@, m).take(self@.len() as int) =~= scaled(self@, m));
        Self::from_vec(v)
    }

    /// Drop the most recently bound variable, returning its usage and the
    /// usage of the remaining outer context.
    pub fn pop(self) -> (r: (Mult, Self))
        ensures
            r.0 == last_or_zero(self@),
            r.1@ == outer_of(self@),
    {
        let mut v = self.0;
        let m = match v.pop() {
            Some(m) => m,
            None => Mult::Zero,
        };
        (m, Self(v))
    }

    /// Drop the two most recently bound variables, returning each one's
    /// usage and the outer remainder.
    pub fn pop2(self) -> (r: (Mult, Mult, Self))
        ensures
            r.1 == last_or_zero(self@),
            r.0 == last_or_zero(outer_of(self@)),
            r.2@ == outer_of(outer_of(self@)),
    {
        let (snd, rest) = self.pop();
        let (fst, rest) = rest.pop();
        (fst, snd, rest)
    }
}

/// Pointwise addition of usage vectors is commutative.
pub proof fn lemma_sum_commutative(a: Seq<Mult>, b: Seq<Mult>)
    ensures
        sum_of(a, b) == sum_of(b, a),
{
    assert(sum_of(a, b) =~= sum_of(b, a));
}

/// Adding the zero vector of the same length changes nothing.
pub proof fn lemma_sum_zeros(a: Seq<Mult>)
    ensures
        sum_of(a, zeros_of(a.len())) == a,
        sum_of(zeros_of(a.len()), a) == a,
{
    assert(sum_of(a, zeros_of(a.len())) =~= a);
    assert(sum_of(zeros_of(a.len()), a) =~= a);
}

/// Scaling by `One` is the identity and scaling by `Zero` yields the zero vector.
pub proof fn lemma_scaled_one_zero(a: Seq<Mult>)
    ensures
        scaled(a, Mult::One) == a,
        scaled(a, Mult::Zero) == zeros_of(a.len()),
{
    assert(scaled(a, Mult::One) =~= a);
    assert(scaled(a, Mult::Zero) =~= zeros_of(a.len()));
}

/// Scaling distributes over pointwise addition.
pub proof fn lemma_scaled_sum(a: Seq<Mult>, b: Seq<Mult>, m: Mult)
    ensures
        scaled(sum_of(a, b), m) == sum_of(scaled(a, m), scaled(b, m)),
{
    assert forall|i: int| 0 <= i < sum_of(a, b).len() implies #[trigger] scaled(sum_of(a, b), m)[i]
        == sum_of(scaled(a, m), scaled(b, m))[i] by {
        lemma_times_distributes(m, a[i], b[i]);
    }
    assert(scaled(sum_of(a, b), m) =~= sum_of(scaled(a, m), scaled(b, m)));
}

/// Popping a vector after pushing `m` gives back `m` and the vector it was pushed onto.
pub proof fn lemma_pop_push(a: Seq<Mult>, m: Mult)
    ensures
        last_or_zero(a.push(m)) == m,
        outer_of(a.push(m)) == a,
{
    assert(a.push(m).drop_last() =~= a);
}


/// Lengths of the vectors built by the usage operations.
pub proof fn lemma_usage_lengths(a: Seq<Mult>, b: Seq<Mult>, m: Mult)
    ensures
        a.len() == b.len() ==> sum_of(a, b).len() == a.len(),
        scaled(a, m).len() == a.len(),
        a.len() > 0 ==> outer_of(a).len() == a.len() - 1,
{
}

/// The zero vector is preserved by the usage operations.
pub proof fn lemma_zeros_closed(n: nat, m: Mult)
    ensures
        scaled(zeros_of(n), m) == zeros_of(n),
        sum_of(zeros_of(n), zeros_of(n)) == zeros_of(n),
        outer_of(zeros_of(n + 1)) == zeros_of(n),
        last_or_zero(zeros_of(n)) == Mult::Zero,
{
    assert(scaled(zeros_of(n), m) =~= zeros_of(n));
    assert(sum_of(zeros_of(n), zeros_of(n)) =~= zeros_of(n));
    assert(outer_of(zeros_of(n + 1)) =~= zeros_of(n));
}

} // verus!
