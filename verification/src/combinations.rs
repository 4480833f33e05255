//! The substitution table and the candidate generator: every variant of a
//! base word obtainable by independently substituting each character, in a
//! fixed generation order (rightmost position cycling fastest), produced
//! lazily by an odometer over per-position variant indices.

use vstd::prelude::*;

verus! {

/// The substitution table, as a total function: for a letter (in either
/// case), the ordered list of stand-in characters — the lowercase letter
/// itself, its uppercase form, and for some letters one digit look-alike.
/// Any other character maps to a single-element list holding the character
/// itself; such characters are unchanged by ASCII lowercasing, so this also
/// lowercases the word.
pub open spec fn variants_of(c: char) -> Seq<char> {
    match c {
        'a' | 'A' => seq!['a', 'A', '4'],
        'b' | 'B' => seq!['b', 'B', '8'],
        'c' | 'C' => seq!['c', 'C'],
        'd' | 'D' => seq!['d', 'D', '6'],
        'e' | 'E' => seq!['e', 'E', '3'],
        'f' | 'F' => seq!['f', 'F'],
        'g' | 'G' => seq!['g', 'G', '9'],
        'h' | 'H' => seq!['h', 'H'],
        'i' | 'I' => seq!['i', 'I', '1'],
        'j' | 'J' => seq!['j', 'J'],
        'k' | 'K' => seq!['k', 'K'],
        'l' | 'L' => seq!['l', 'L', '1'],
        'm' | 'M' => seq!['m', 'M'],
        'n' | 'N' => seq!['n', 'N'],
        'o' | 'O' => seq!['o', 'O', '0'],
        'p' | 'P' => seq!['p', 'P'],
        'q' | 'Q' => seq!['q', 'Q'],
        'r' | 'R' => seq!['r', 'R'],
        's' | 'S' => seq!['s', 'S', '5'],
        't' | 'T' => seq!['t', 'T', '7'],
        'u' | 'U' => seq!['u', 'U'],
        'v' | 'V' => seq!['v', 'V'],
        'w' | 'W' => seq!['w', 'W'],
        'x' | 'X' => seq!['x', 'X'],
        'y' | 'Y' => seq!['y', 'Y'],
        'z' | 'Z' => seq!['z', 'Z', '2'],
        _ => seq![c],
    }
}

/// Every character has at least one variant, so the candidate space is never
/// empty.
pub proof fn lemma_variants_nonempty(c: char)
    ensures
        variants_of(c).len() >= 1,
{
}

/// For any character absent from the table — one that is neither an
/// uppercase nor a lowercase ASCII letter — the variant list is exactly the
/// character itself. (Such a character is its own ASCII lowercase form.)
pub proof fn lemma_variants_absent(c: char)
    requires
        !('a' <= c && c <= 'z'),
        !('A' <= c && c <= 'Z'),
    ensures
        variants_of(c) == seq![c],
{
}

/// Number of candidates generated from positions `i..` of `w`: the product
/// of the variant counts of those positions.
pub open spec fn count_from(w: Seq<char>, i: int) -> nat
    decreases w.len() - i,
{
    if i < 0 || i >= w.len() {
        1
    } else {
        variants_of(w[i]).len() * count_from(w, i + 1)
    }
}

/// Total number of candidates of `w`: the product over every position of the
/// size of that position's variant list.
pub open spec fn candidate_count(w: Seq<char>) -> nat {
    count_from(w, 0)
}

/// The candidate of rank `k` among those generated from positions `i..` of
/// `w`: the rank is read as a mixed-radix numeral whose most significant
/// digit selects position `i`'s variant, so the rightmost position cycles
/// fastest.
pub open spec fn candidate_at(w: Seq<char>, i: int, k: int) -> Seq<char>
    decreases w.len() - i,
{
    if i < 0 || i >= w.len() {
        Seq::empty()
    } else {
        let rest = count_from(w, i + 1) as int;
        seq![variants_of(w[i])[k / rest]] + candidate_at(w, i + 1, k % rest)
    }
}

/// All candidates of `w`, in generation order.
pub open spec fn candidates_of(w: Seq<char>) -> Seq<Seq<char>> {
    Seq::new(candidate_count(w), |k: int| candidate_at(w, 0, k))
}

/// Every variant list is non-empty, so the candidate count — a product of
/// their sizes — is at least one.
pub proof fn lemma_count_from_pos(w: Seq<char>, i: int)
    ensures
        count_from(w, i) >= 1,
    decreases w.len() - i,
{
    if 0 <= i < w.len() {
        lemma_count_from_pos(w, i + 1);
        lemma_variants_nonempty(w[i]);
        let a = variants_of(w[i]).len();
        let b = count_from(w, i + 1);
        assert(a * b >= 1) by (nonlinear_arith)
            requires
                a >= 1,
                b >= 1,
        ;
    }
}

proof fn lemma_count_from_shift(w: Seq<char>, i: int)
    requires
        0 <= i,
        w.len() >= 1,
    ensures
        count_from(w, i + 1) == count_from(w.drop_first(), i),
    decreases w.len() - i,
{
    if i + 1 < w.len() {
        lemma_count_from_shift(w, i + 1);
    }
}

/// The candidate count is the product, over the word's positions, of the
/// sizes of their variant lists: one factor per position, peeled off the
/// front, down to a single (empty) candidate for the empty word.
pub proof fn lemma_candidate_count_product(w: Seq<char>)
    requires
        w.len() > 0,
    ensures
        candidate_count(w) == variants_of(w[0]).len() * candidate_count(w.drop_first()),
{
    lemma_count_from_shift(w, 0);
}

/// The empty word has exactly one candidate: the empty string.
pub proof fn lemma_candidates_of_empty_word(w: Seq<char>)
    requires
        w.len() == 0,
    ensures
        candidates_of(w) == seq![Seq::<char>::empty()],
{
    assert(candidates_of(w) =~= seq![Seq::<char>::empty()]);
}

/// Generation carries no hidden state between runs: any two runs over equal
/// words produce the same candidate sequence, in the same order, because
/// each run's output is exactly `candidates_of` of its word.
pub proof fn lemma_generation_repeatable(w1: Seq<char>, w2: Seq<char>)
    requires
        w1 == w2,
    ensures
        candidates_of(w1) == candidates_of(w2),
{
}

/// A per-position index vector is valid when it has one entry per position
/// and each entry selects an existing variant.
spec fn idx_valid(w: Seq<char>, idx: Seq<usize>) -> bool {
    &&& idx.len() == w.len()
    &&& forall|t: int| 0 <= t < w.len() ==> (idx[t] as int) < variants_of(w[t]).len()
}

/// The rank of the odometer state `idx` restricted to positions `i..`: the
/// value of the suffix read as a mixed-radix numeral.
spec fn rank_from(w: Seq<char>, idx: Seq<usize>, i: int) -> nat
    decreases w.len() - i,
{
    if i < 0 || i >= w.len() {
        0
    } else {
        (idx[i] as nat) * count_from(w, i + 1) + rank_from(w, idx, i + 1)
    }
}

/// The candidate selected by the odometer state `idx` on positions `i..`.
spec fn selection_from(w: Seq<char>, idx: Seq<usize>, i: int) -> Seq<char>
    decreases w.len() - i,
{
    if i < 0 || i >= w.len() {
        Seq::empty()
    } else {
        seq![variants_of(w[i])[idx[i] as int]] + selection_from(w, idx, i + 1)
    }
}

proof fn lemma_rank_bound(w: Seq<char>, idx: Seq<usize>, i: int)
    requires
        idx_valid(w, idx),
        0 <= i,
    ensures
        rank_from(w, idx, i) < count_from(w, i),
    decreases w.len() - i,
{
    if i >= w.len() {
    } else {
        lemma_rank_bound(w, idx, i + 1);
        lemma_count_from_pos(w, i + 1);
        let d = idx[i] as int;
        let l = variants_of(w[i]).len() as int;
        let c = count_from(w, i + 1) as int;
        let r = rank_from(w, idx, i + 1) as int;
        assert(d * c + r < l * c) by (nonlinear_arith)
            requires
                0 <= d,
                d < l,
                0 <= r,
                r < c,
        ;
    }
}

proof fn lemma_decode(w: Seq<char>, idx: Seq<usize>, i: int)
    requires
        idx_valid(w, idx),
        0 <= i,
    ensures
        candidate_at(w, i, rank_from(w, idx, i) as int) == selection_from(w, idx, i),
    decreases w.len() - i,
{
    if i >= w.len() {
    } else {
        lemma_count_from_pos(w, i + 1);
        lemma_rank_bound(w, idx, i + 1);
        let d = idx[i] as int;
        let c = count_from(w, i + 1) as int;
        let r = rank_from(w, idx, i + 1) as int;
        let x = rank_from(w, idx, i) as int;
        assert(x == d * c + r);
        vstd::arithmetic::div_mod::lemma_fundamental_div_mod_converse_div(x, c, d, r);
        vstd::arithmetic::div_mod::lemma_fundamental_div_mod_converse_mod(x, c, d, r);
        lemma_decode(w, idx, i + 1);
    }
}

proof fn lemma_rank_all_zero(w: Seq<char>, idx: Seq<usize>, i: int)
    requires
        idx.len() == w.len(),
        forall|t: int| i <= t < w.len() ==> idx[t] as int == 0,
    ensures
        rank_from(w, idx, i) == 0,
    decreases w.len() - i,
{
    if 0 <= i < w.len() {
        lemma_rank_all_zero(w, idx, i + 1);
    }
}

proof fn lemma_rank_all_max(w: Seq<char>, idx: Seq<usize>, i: int)
    requires
        idx.len() == w.len(),
        0 <= i,
        forall|t: int| i <= t < w.len() ==> idx[t] as int == variants_of(w[t]).len() - 1,
    ensures
        rank_from(w, idx, i) == count_from(w, i) - 1,
    decreases w.len() - i,
{
    if i >= w.len() {
    } else {
        lemma_rank_all_max(w, idx, i + 1);
        lemma_count_from_pos(w, i + 1);
        lemma_variants_nonempty(w[i]);
        let l = variants_of(w[i]).len() as int;
        let c = count_from(w, i + 1) as int;
        assert((l - 1) * c + (c - 1) == l * c - 1) by (nonlinear_arith);
    }
}

/// Bumping position `j` by one while resetting a maxed-out suffix to zero
/// advances the odometer's rank by exactly one.
proof fn lemma_rank_increment(w: Seq<char>, idx1: Seq<usize>, idx2: Seq<usize>, i: int, j: int)
    requires
        idx1.len() == w.len(),
        idx2.len() == w.len(),
        0 <= i <= j < w.len(),
        forall|t: int| i <= t < j ==> idx1[t] == idx2[t],
        idx2[j] as int == idx1[j] as int + 1,
        forall|t: int| j < t < w.len() ==> idx1[t] as int == variants_of(w[t]).len() - 1,
        forall|t: int| j < t < w.len() ==> idx2[t] as int == 0,
    ensures
        rank_from(w, idx2, i) == rank_from(w, idx1, i) + 1,
    decreases j - i,
{
    if i < j {
        lemma_rank_increment(w, idx1, idx2, i + 1, j);
    } else {
        lemma_rank_all_max(w, idx1, j + 1);
        lemma_rank_all_zero(w, idx2, j + 1);
        lemma_count_from_pos(w, j + 1);
        let d = idx1[j] as int;
        let c = count_from(w, j + 1) as int;
        assert((d + 1) * c == d * c + c) by (nonlinear_arith);
    }
}

/// Return the substitution list for `c`, as `variants_of` states it.
pub fn variants(c: char) -> (r: Vec<char>)
    ensures
        r@ == variants_of(c),
{
    let r: Vec<char> = match c {
        'a' | 'A' => vec!['a', 'A', '4'],
        'b' | 'B' => vec!['b', 'B', '8'],
        'c' | 'C' => vec!['c', 'C'],
        'd' | 'D' => vec!['d', 'D', '6'],
        'e' | 'E' => vec!['e', 'E', '3'],
        'f' | 'F' => vec!['f', 'F'],
        'g' | 'G' => vec!['g', 'G', '9'],
        'h' | 'H' => vec!['h', 'H'],
        'i' | 'I' => vec!['i', 'I', '1'],
        'j' | 'J' => vec!['j', 'J'],
        'k' | 'K' => vec!['k', 'K'],
        'l' | 'L' => vec!['l', 'L', '1'],
        'm' | 'M' => vec!['m', 'M'],
        'n' | 'N' => vec!['n', 'N'],
        'o' | 'O' => vec!['o', 'O', '0'],
        'p' | 'P' => vec!['p', 'P'],
        'q' | 'Q' => vec!['q', 'Q'],
        'r' | 'R' => vec!['r', 'R'],
        's' | 'S' => vec!['s', 'S', '5'],
        't' | 'T' => vec!['t', 'T', '7'],
        'u' | 'U' => vec!['u', 'U'],
        'v' | 'V' => vec!['v', 'V'],
        'w' | 'W' => vec!['w', 'W'],
        'x' | 'X' => vec!['x', 'X'],
        'y' | 'Y' => vec!['y', 'Y'],
        'z' | 'Z' => vec!['z', 'Z', '2'],
        _ => vec![c],
    };
    proof {
        assert(r@ =~= variants_of(c));
    }
    r
}

/// Relies on `String::push`: appends the given character to the end of the
/// string.
#[verifier::external_body]
fn push_char(s: &mut String, c: char)
    ensures
        final(s)@ == old(s)@.push(c),
{
    s.push(c);
}

/// Lazily enumerates every substitution variant of a base word, in
/// generation order. Only the variant lists and the current vector of
/// per-position indices are held — the product is never materialized — and
/// the rightmost position's index cycles fastest. A fresh generator replays
/// the identical sequence: the `k`-th produced candidate is always
/// `candidates_of(word)[k]`.
pub struct CandidateGenerator {
    lists: Vec<Vec<char>>,
    indices: Vec<usize>,
    exhausted: bool,
    word: Ghost<Seq<char>>,
}

impl CandidateGenerator {
    /// The base word whose variants are enumerated.
    pub closed spec fn word(&self) -> Seq<char> {
        self.word@
    }

    /// How many candidates have been produced so far.
    pub closed spec fn produced(&self) -> nat {
        if self.exhausted {
            candidate_count(self.word@)
        } else {
            rank_from(self.word@, self.indices@, 0)
        }
    }

    pub closed spec fn wf(&self) -> bool {
        &&& self.lists@.len() == self.word@.len()
        &&& forall|t: int|
            0 <= t < self.word@.len() ==> (#[trigger] self.lists@[t])@ == variants_of(self.word@[t])
        &&& !self.exhausted ==> idx_valid(self.word@, self.indices@)
        &&& self.indices@.len() == self.word@.len()
    }

    /// Start enumerating the variants of `word` from the first candidate.
    pub fn new(word: &str) -> (g: CandidateGenerator)
        ensures
            g.wf(),
            g.word() == word@,
            g.produced() == 0,
    {
        let n = word.unicode_len();
        let mut lists: Vec<Vec<char>> = Vec::new();
        let mut indices: Vec<usize> = Vec::new();
        let mut i: usize = 0;
        while i < n
            invariant
                i <= n,
                n == word@.len(),
                lists@.len() == i,
                indices@.len() == i,
                forall|t: int| 0 <= t < i ==> (#[trigger] lists@[t])@ == variants_of(word@[t]),
                forall|t: int| 0 <= t < i ==> (#[trigger] indices@[t]) as int == 0,
            decreases n - i,
        {
            lists.push(variants(word.get_char(i)));
            indices.push(0);
            i += 1;
        }
        let g = CandidateGenerator { lists, indices, exhausted: false, word: Ghost(word@) };
        proof {
            assert forall|t: int| 0 <= t < word@.len() implies (g.indices@[t] as int) < variants_of(
                word@[t],
            ).len() by {
                lemma_variants_nonempty(word@[t]);
            }
            lemma_rank_all_zero(word@, g.indices@, 0);
        }
        g
    }

    /// Step the odometer to the next index vector; once every combination
    /// has been visited, mark the generator exhausted.
    fn advance(&mut self)
        requires
            old(self).wf(),
            !old(self).exhausted,
        ensures
            final(self).wf(),
            final(self).word() == old(self).word(),
            final(self).produced() == old(self).produced() + 1,
    {
        let ghost w = self.word@;
        let ghost idx0 = self.indices@;
        let n = self.indices.len();
        let mut j = n;
        loop
            invariant_except_break
                self.exhausted == false,
                forall|t: int| 0 <= t < j ==> self.indices@[t] == idx0[t],
                forall|t: int| j <= t < n ==> (#[trigger] self.indices@[t]) as int == 0,
                forall|t: int|
                    j <= t < n ==> (#[trigger] idx0[t]) as int == variants_of(w[t]).len() - 1,
            invariant
                self.word@ == w,
                self.lists@ == old(self).lists@,
                self.indices@.len() == n,
                self.lists@.len() == n,
                n == w.len(),
                idx0.len() == n,
                idx_valid(w, idx0),
                forall|t: int| 0 <= t < n ==> (#[trigger] self.lists@[t])@ == variants_of(w[t]),
                j <= n,
            ensures
                if self.exhausted {
                    rank_from(w, idx0, 0) == count_from(w, 0) - 1
                } else {
                    &&& idx_valid(w, self.indices@)
                    &&& rank_from(w, self.indices@, 0) == rank_from(w, idx0, 0) + 1
                },
            decreases j,
        {
            if j == 0 {
                self.exhausted = true;
                proof {
                    lemma_rank_all_max(w, idx0, 0);
                }
                break;
            }
            j -= 1;
            let li = self.lists[j].len();
            let cur = self.indices[j];
            proof {
                assert(self.indices@[j as int] == idx0[j as int]);
                assert((idx0[j as int] as int) < variants_of(w[j as int]).len());
            }
            if cur + 1 < li {
                self.indices.set(j, cur + 1);
                proof {
                    lemma_rank_increment(w, idx0, self.indices@, 0, j as int);
                    assert forall|t: int| 0 <= t < n implies (#[trigger] self.indices@[t] as int)
                        < variants_of(w[t]).len() by {
                        lemma_variants_nonempty(w[t]);
                        if t < j {
                            assert(self.indices@[t] == idx0[t]);
                            assert((idx0[t] as int) < variants_of(w[t]).len());
                        }
                    }
                }
                break;
            } else {
                self.indices.set(j, 0);
            }
        }
        proof {
            lemma_count_from_pos(w, 0);
        }
    }

    /// Produce the next candidate, or `None` once every combination has
    /// been produced: the `k`-th call (counting from zero) returns exactly
    /// `candidates_of(word)[k]`.
    pub fn next(&mut self) -> (r: Option<String>)
        requires
            old(self).wf(),
        ensures
            final(self).wf(),
            final(self).word() == old(self).word(),
            final(self).produced() <= candidate_count(final(self).word()),
            old(self).produced() < candidate_count(old(self).word()) ==> {
                &&& final(self).produced() == old(self).produced() + 1
                &&& r matches Some(s) && s@ == candidates_of(old(self).word())[old(
                    self,
                ).produced() as int]
            },
            old(self).produced() >= candidate_count(old(self).word()) ==> {
                &&& r is None
                &&& final(self).produced() == old(self).produced()
            },
    {
        let ghost w = self.word@;
        if self.exhausted {
            return None;
        }
        proof {
            lemma_rank_bound(w, self.indices@, 0);
        }
        let ghost idx0 = self.indices@;
        let ghost k = rank_from(w, idx0, 0);
        let n = self.lists.len();
        let mut s = String::new();
        let mut i: usize = 0;
        while i < n
            invariant
                i <= n,
                n == w.len(),
                self.wf(),
                !self.exhausted,
                self.word@ == w,
                self.indices@ == idx0,
                s@ + selection_from(w, idx0, i as int) == selection_from(w, idx0, 0),
            decreases n - i,
        {
            let ghost s_before = s@;
            let c = self.lists[i][self.indices[i]];
            push_char(&mut s, c);
            proof {
                assert(s@ + selection_from(w, idx0, i + 1) =~= (s_before + selection_from(
                    w,
                    idx0,
                    i as int,
                )));
            }
            i += 1;
        }
        proof {
            assert(s@ + selection_from(w, idx0, n as int) =~= s@);
            lemma_decode(w, idx0, 0);
            assert(s@ == candidates_of(w)[k as int]);
        }
        self.advance();
        Some(s)
    }
}

/// Expand `password` into every substitution variant, collected in
/// generation order: the result is exactly `candidates_of(password@)`, so
/// its length is the product, over the word's positions, of the sizes of
/// their variant lists. Running the generator twice produces this same
/// sequence both times.
pub fn generate_combinaton_catesian_product(password: &str) -> (r: Vec<String>)
    ensures
        r@.len() == candidate_count(password@),
        forall|k: int| 0 <= k < r@.len() ==> (#[trigger] r@[k])@ == candidates_of(password@)[k],
{
    let mut out: Vec<String> = Vec::new();
    let mut g = CandidateGenerator::new(password);
    loop
        invariant
            g.wf(),
            g.word() == password@,
            out@.len() == g.produced(),
            g.produced() <= candidate_count(password@),
            forall|k: int|
                0 <= k < out@.len() ==> (#[trigger] out@[k])@ == candidates_of(password@)[k],
        ensures
            out@.len() == candidate_count(password@),
            forall|k: int|
                0 <= k < out@.len() ==> (#[trigger] out@[k])@ == candidates_of(password@)[k],
        decreases candidate_count(password@) - g.produced(),
    {
        match g.next() {
            Some(c) => {
                out.push(c);
            },
            None => {
                break;
            },
        }
    }
    out
}

} // verus!
