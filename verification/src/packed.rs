//! The packed two-bits-per-symbol sequence container.

use vstd::prelude::*;
use vstd::string::StringExecFns;

use crate::nuc::char_nuc;
use crate::nuc::count_char_ci;
use crate::nuc::nuc_char;
use crate::nuc::parsed;
use crate::nuc::valid_text;
use crate::nuc::Nuc;
use crate::nuc::ParseNucError;
use crate::text::dec_str;
use crate::text::dec_string;
use crate::text::spec_upper;
use crate::text::to_upper_string;
use crate::text::upper_seq;

verus! {

/// The 2-bit code of a nucleotide.
pub open spec fn nuc_code(n: Nuc) -> u8 {
    match n {
        Nuc::A => 0,
        Nuc::C => 1,
        Nuc::G => 2,
        Nuc::T => 3,
    }
}

/// The nucleotide of a 2-bit code.
pub open spec fn code_nuc(b: u8) -> Nuc {
    if b == 0 {
        Nuc::A
    } else if b == 1 {
        Nuc::C
    } else if b == 2 {
        Nuc::G
    } else {
        Nuc::T
    }
}

/// The value of one storage unit holding the given symbols (at most four),
/// the first symbol in the most significant occupied 2-bit field.
pub open spec fn unit_of(s: Seq<Nuc>) -> u8
    recommends
        1 <= s.len() <= 4,
{
    if s.len() <= 1 {
        nuc_code(s[0])
    } else if s.len() == 2 {
        (4 * (nuc_code(s[0]) as int) + (nuc_code(s[1]) as int)) as u8
    } else if s.len() == 3 {
        (16 * (nuc_code(s[0]) as int) + 4 * (nuc_code(s[1]) as int) + (nuc_code(
            s[2],
        ) as int)) as u8
    } else {
        (64 * (nuc_code(s[0]) as int) + 16 * (nuc_code(s[1]) as int) + 4 * (nuc_code(s[2]) as int)
            + (nuc_code(s[3]) as int)) as u8
    }
}

/// How many storage units a sequence of the given length occupies.
pub open spec fn num_units(len: nat) -> nat {
    (len + 3) / 4
}

/// The symbols of the `j`-th storage unit: four of them, or what remains for
/// the last unit of a length that is not a multiple of four.
pub open spec fn group_of(s: Seq<Nuc>, j: int) -> Seq<Nuc>
    recommends
        0 <= j < num_units(s.len()),
{
    if 4 * j + 4 <= s.len() {
        s.subrange(4 * j, 4 * j + 4)
    } else {
        s.subrange(4 * j, s.len() as int)
    }
}

/// The packed storage encoding a symbol sequence.
pub open spec fn storage_of(s: Seq<Nuc>) -> Seq<u8> {
    Seq::new(num_units(s.len()), |j: int| unit_of(group_of(s, j)))
}

/// How many times a nucleotide occurs in a sequence.
pub open spec fn count_nuc(s: Seq<Nuc>, n: Nuc) -> nat
    decreases s.len(),
{
    if s.len() == 0 {
        0
    } else {
        count_nuc(s.drop_last(), n) + (if s.last() == n {
            1nat
        } else {
            0nat
        })
    }
}

/// The 2-bit field `f` of a unit holding `t` symbols in its low `2 * t` bits.
pub open spec fn field_of(u: u8, t: int, f: int) -> u8
    recommends
        1 <= t <= 4,
        0 <= f < t,
{
    let sh = 2 * (t - 1 - f);
    if sh == 6 {
        (u >> 6u8) & 3
    } else if sh == 4 {
        (u >> 4u8) & 3
    } else if sh == 2 {
        (u >> 2u8) & 3
    } else {
        u & 3
    }
}

/// Every field of a unit decodes to the code of the symbol it was packed from.
pub proof fn lemma_unit_fields(s: Seq<Nuc>)
    requires
        1 <= s.len() <= 4,
    ensures
        forall|f: int|
            0 <= f < s.len() ==> #[trigger] field_of(unit_of(s), s.len() as int, f) == nuc_code(
                s[f],
            ),
{
    let u = unit_of(s);
    if s.len() == 1 {
        let c0 = nuc_code(s[0]);
        assert(u & 3 == c0) by (bit_vector)
            requires
                u == c0,
                c0 <= 3,
        ;
    } else if s.len() == 2 {
        let c0 = nuc_code(s[0]);
        let c1 = nuc_code(s[1]);
        assert((u >> 2u8) & 3 == c0 && u & 3 == c1) by (bit_vector)
            requires
                u == (4 * (c0 as int) + (c1 as int)) as u8,
                c0 <= 3,
                c1 <= 3,
        ;
    } else if s.len() == 3 {
        let c0 = nuc_code(s[0]);
        let c1 = nuc_code(s[1]);
        let c2 = nuc_code(s[2]);
        assert((u >> 4u8) & 3 == c0 && (u >> 2u8) & 3 == c1 && u & 3 == c2) by (bit_vector)
            requires
                u == (16 * (c0 as int) + 4 * (c1 as int) + (c2 as int)) as u8,
                c0 <= 3,
                c1 <= 3,
                c2 <= 3,
        ;
    } else {
        let c0 = nuc_code(s[0]);
        let c1 = nuc_code(s[1]);
        let c2 = nuc_code(s[2]);
        let c3 = nuc_code(s[3]);
        assert((u >> 6u8) & 3 == c0 && (u >> 4u8) & 3 == c1 && (u >> 2u8) & 3 == c2 && u & 3
            == c3) by (bit_vector)
            requires
                u == (64 * (c0 as int) + 16 * (c1 as int) + 4 * (c2 as int) + (c3 as int)) as u8,
                c0 <= 3,
                c1 <= 3,
                c2 <= 3,
                c3 <= 3,
        ;
    }
}

/// A count never exceeds the length of the sequence counted over.
pub proof fn lemma_count_le_len(s: Seq<Nuc>, n: Nuc)
    ensures
        count_nuc(s, n) <= s.len(),
    decreases s.len(),
{
    if s.len() > 0 {
        lemma_count_le_len(s.drop_last(), n);
    }
}

/// The largest value a unit holding `k` symbols can take, exclusive: the
/// accumulated value fits in the low `2 * k` bits.
pub open spec fn unit_cap(k: int) -> int {
    if k <= 0 {
        1
    } else if k == 1 {
        4
    } else if k == 2 {
        16
    } else if k == 3 {
        64
    } else {
        256
    }
}

/// Appending one symbol to a partial unit shifts the accumulated value up by
/// one field; the value stays within the occupied low bits.
proof fn lemma_unit_of_push(s: Seq<Nuc>, x: Nuc)
    requires
        s.len() <= 3,
    ensures
        s.len() == 0 ==> unit_of(s.push(x)) == nuc_code(x),
        s.len() > 0 ==> unit_of(s.push(x)) as int == 4 * (unit_of(s) as int) + nuc_code(x) as int,
        (unit_of(s.push(x)) as int) < unit_cap(s.len() as int + 1),
{
    let p = s.push(x);
    assert(p[s.len() as int] == x);
    assert forall|i: int| 0 <= i < s.len() implies p[i] == s[i] by {}
}

/// A nucleotide sequence stored with two bits per symbol.
///
/// Each 8-bit storage unit holds four symbols; in a full unit the first
/// symbol occupies the most significant 2-bit field.  A final unit holding
/// `k` symbols (`0 < k < 4`) keeps them in its low `2 * k` bits.  An empty
/// sequence occupies no storage units, so a tail occupancy of 0 always means
/// that every unit present is full.  Queries use 1-based positions: the
/// first symbol is at index 1 — a deliberate deviation from the usual
/// 0-based convention, carried through the public contract.
#[derive(Debug)]
pub struct PackedDna {
    storage: Vec<u8>,
    tail: usize,
    a_count: usize,
    c_count: usize,
    g_count: usize,
    t_count: usize,
}

impl PackedDna {
    /// The packed storage units.
    pub closed spec fn spec_storage(self) -> Seq<u8> {
        self.storage@
    }

    /// How many symbol fields of the last storage unit are occupied; 0 means
    /// the last unit, if any, is full.
    pub closed spec fn spec_tail(self) -> nat {
        self.tail as nat
    }

    /// The stored occurrence count of a nucleotide.
    pub closed spec fn spec_count(self, n: Nuc) -> nat {
        match n {
            Nuc::A => self.a_count as nat,
            Nuc::C => self.c_count as nat,
            Nuc::G => self.g_count as nat,
            Nuc::T => self.t_count as nat,
        }
    }

    /// How many symbols the sequence holds.
    pub open spec fn spec_len(self) -> int {
        if self.spec_tail() == 0 {
            4 * (self.spec_storage().len() as int)
        } else {
            4 * (self.spec_storage().len() as int - 1) + self.spec_tail() as int
        }
    }

    /// The symbol decoded from position `i` (0-based here; the public `get`
    /// takes 1-based indices).
    pub closed spec fn nuc_at(self, i: int) -> Nuc {
        let j = i / 4;
        let t: int = if j == self.spec_storage().len() - 1 && self.spec_tail() != 0 {
            self.spec_tail() as int
        } else {
            4
        };
        code_nuc(field_of(self.spec_storage()[j], t, i % 4))
    }

    /// The value is the canonical encoding of the symbol sequence `s`: the
    /// storage, the tail occupancy, and the counts are exactly what packing
    /// `s` produces.
    pub open spec fn encodes(self, s: Seq<Nuc>) -> bool {
        &&& self.spec_storage() == storage_of(s)
        &&& self.spec_tail() == s.len() % 4
        &&& forall|n: Nuc| self.spec_count(n) == count_nuc(s, n)
    }

    /// Well-formedness: the tail occupancy is in range, a non-zero tail
    /// implies a last unit exists, and the stored counts agree with the
    /// decoded sequence.
    pub open spec fn wf(self) -> bool {
        &&& self.spec_tail() < 4
        &&& (self.spec_tail() != 0 ==> self.spec_storage().len() >= 1)
        &&& forall|n: Nuc| self.spec_count(n) == count_nuc(self@, n)
    }
}

impl View for PackedDna {
    type V = Seq<Nuc>;

    /// The sequence of symbols the value stores, in order.
    closed spec fn view(&self) -> Seq<Nuc> {
        Seq::new(self.spec_len() as nat, |i: int| self.nuc_at(i))
    }
}

impl PackedDna {
    /// Builds the packed sequence from a stream of symbols, consumed once, in
    /// order.  Never fails: every symbol is valid by construction.
    pub fn from_iter(nucs: Vec<Nuc>) -> (r: PackedDna)
        ensures
            r.encodes(nucs@),
            r.wf(),
            r@ == nucs@,
    {
        let s = Ghost(nucs@);
        let n = nucs.len();
        let mut storage: Vec<u8> = Vec::new();
        let mut curr: u8 = 0;
        let mut k: usize = 0;
        let mut a_count: usize = 0;
        let mut c_count: usize = 0;
        let mut g_count: usize = 0;
        let mut t_count: usize = 0;
        let mut i: usize = 0;
        while i < n
            invariant
                n == s@.len(),
                s@ == nucs@,
                i <= n,
                k == i % 4,
                storage@.len() == i / 4,
                forall|j: int|
                    0 <= j < i / 4 ==> storage@[j] == unit_of(
                        #[trigger] s@.subrange(4 * j, 4 * j + 4),
                    ),
                k == 0 ==> curr == 0,
                k > 0 ==> curr == unit_of(s@.subrange(i - k, i as int)),
                (curr as int) < unit_cap(k as int),
                a_count == count_nuc(s@.take(i as int), Nuc::A),
                c_count == count_nuc(s@.take(i as int), Nuc::C),
                g_count == count_nuc(s@.take(i as int), Nuc::G),
                t_count == count_nuc(s@.take(i as int), Nuc::T),
            decreases n - i,
        {
            let nuc = nucs[i];
            proof {
                lemma_count_le_len(s@.take(i as int), Nuc::A);
                lemma_count_le_len(s@.take(i as int), Nuc::C);
                lemma_count_le_len(s@.take(i as int), Nuc::G);
                lemma_count_le_len(s@.take(i as int), Nuc::T);
                assert(s@.take(i as int + 1).drop_last() =~= s@.take(i as int));
                assert(s@.take(i as int + 1).last() == nuc);
            }
            let code: u8 = match nuc {
                Nuc::A => {
                    a_count = a_count + 1;
                    0
                },
                Nuc::C => {
                    c_count = c_count + 1;
                    1
                },
                Nuc::G => {
                    g_count = g_count + 1;
                    2
                },
                Nuc::T => {
                    t_count = t_count + 1;
                    3
                },
            };
            let new_curr = (curr << 2u8) | code;
            proof {
                assert(new_curr as int == 4 * (curr as int) + (code as int)) by (bit_vector)
                    requires
                        new_curr == (curr << 2u8) | code,
                        curr < 64,
                        code < 4,
                ;
                let partial = s@.subrange(i - k, i as int);
                assert(partial.push(nuc) =~= s@.subrange(i - k, i as int + 1));
                lemma_unit_of_push(partial, nuc);
            }
            if k == 3 {
                storage.push(new_curr);
                proof {
                    let j = i / 4;
                    assert(4 * j == i - 3 && (i + 1) / 4 == j + 1 && (i + 1) % 4 == 0)
                        by (nonlinear_arith)
                        requires
                            j == i / 4,
                            i % 4 == 3,
                            0 <= i,
                    ;
                    assert(storage@[j as int] == unit_of(s@.subrange(4 * (j as int), 4 * (
                    j as int) + 4)));
                }
                curr = 0;
                k = 0;
            } else {
                proof {
                    assert((i + 1) / 4 == i / 4 && (i + 1) % 4 == i % 4 + 1) by (nonlinear_arith)
                        requires
                            i % 4 < 3,
                            0 <= i,
                    ;
                }
                curr = new_curr;
                k = k + 1;
            }
            i = i + 1;
        }
        if k > 0 {
            storage.push(curr);
        }
        let r = PackedDna { storage, tail: k, a_count, c_count, g_count, t_count };
        proof {
            assert(s@.take(n as int) =~= s@);
            if k == 0 {
                assert(num_units(s@.len()) == n / 4) by (nonlinear_arith)
                    requires
                        n == s@.len(),
                        n % 4 == 0,
                        num_units(s@.len()) == (s@.len() + 3) / 4,
                ;
            } else {
                assert(num_units(s@.len()) == n / 4 + 1 && 4 * (n as int / 4) == n - k)
                    by (nonlinear_arith)
                    requires
                        n == s@.len(),
                        k == n % 4,
                        0 < k < 4,
                        num_units(s@.len()) == (s@.len() + 3) / 4,
                ;
            }
            assert forall|j: int| 0 <= j < num_units(s@.len()) implies r.storage@[j] == unit_of(
                group_of(s@, j),
            ) by {
                if j < n as int / 4 {
                    assert(4 * j + 4 <= 4 * (n as int / 4) <= n) by (nonlinear_arith)
                        requires
                            j < n as int / 4,
                            0 <= j,
                            n < 0x10000000000000000,
                    ;
                    assert(group_of(s@, j) == s@.subrange(4 * j, 4 * j + 4));
                } else {
                    assert(k > 0 && j == n as int / 4);
                    assert(group_of(s@, j) == s@.subrange(n - k, n as int));
                }
            }
            assert(r.spec_storage() =~= storage_of(s@));
            lemma_encodes_view(r, s@);
        }
        r
    }
}

impl PackedDna {
    /// Builds the packed sequence from text, case-insensitively.  The first
    /// character outside `A`/`C`/`G`/`T` aborts construction; the error
    /// carries the upper-cased input and no partial sequence is returned.
    pub fn from_str(s: &str) -> (r: Result<PackedDna, ParseNucError<String>>)
        ensures
            r is Ok <==> valid_text(s@),
            r is Ok ==> r->Ok_0.encodes(parsed(s@)),
            r is Ok ==> r->Ok_0.wf() && r->Ok_0@ == parsed(s@),
            r is Err ==> r->Err_0.value()@ == upper_seq(s@),
    {
        let upper = to_upper_string(s);
        let n = upper.as_str().unicode_len();
        let mut v: Vec<Nuc> = Vec::new();
        let mut i: usize = 0;
        while i < n
            invariant
                upper@ == upper_seq(s@),
                n == s@.len(),
                i <= n,
                v@.len() == i,
                forall|j: int|
                    0 <= j < i ==> char_nuc(#[trigger] s@[j]) is Some && v@[j] == char_nuc(
                        s@[j],
                    )->0,
            decreases n - i,
        {
            let c = upper.as_str().get_char(i);
            proof {
                crate::nuc::lemma_char_nuc_upper(s@[i as int]);
            }
            let nu = match c {
                'A' => Nuc::A,
                'C' => Nuc::C,
                'G' => Nuc::G,
                'T' => Nuc::T,
                _ => {
                    proof {
                        assert(char_nuc(s@[i as int]) is None);
                    }
                    return Err(ParseNucError::new(upper));
                },
            };
            v.push(nu);
            i = i + 1;
        }
        proof {
            assert(v@ =~= parsed(s@));
        }
        Ok(PackedDna::from_iter(v))
    }

    /// The symbol at a 1-based position: index 1 is the first symbol.  An
    /// index of 0 or one past the length fails with a diagnostic naming the
    /// index.
    pub fn get(&self, idx: usize) -> (r: Result<Nuc, String>)
        requires
            self.wf(),
        ensures
            r is Ok <==> 1 <= idx <= self@.len(),
            r is Ok ==> r->Ok_0 == self@[idx - 1],
            r is Err ==> r->Err_0@ == index_error_msg(idx as nat),
    {
        if idx == 0 {
            return Err(Self::index_error(idx));
        }
        let pos = idx - 1;
        let vec_index = pos / 4;
        let field_index = pos % 4;
        proof {
            assert(4 * (pos as int / 4) + pos as int % 4 == pos as int) by (nonlinear_arith)
                requires
                    0 <= pos,
            ;
        }
        if vec_index >= self.storage.len() {
            return Err(Self::index_error(idx));
        }
        let is_last = vec_index == self.storage.len() - 1;
        if is_last && self.tail != 0 && field_index >= self.tail {
            return Err(Self::index_error(idx));
        }
        let t: usize = if is_last && self.tail != 0 {
            self.tail
        } else {
            4
        };
        let unit = self.storage[vec_index];
        let sh: usize = 2 * (t - 1 - field_index);
        let code = (unit >> (sh as u8)) & 3;
        proof {
            assert(sh == 6 || sh == 4 || sh == 2 || sh == 0);
            if sh == 6 {
                assert(sh as u8 == 6u8);
            } else if sh == 4 {
                assert(sh as u8 == 4u8);
            } else if sh == 2 {
                assert(sh as u8 == 2u8);
            } else {
                assert(sh as u8 == 0u8);
                assert(unit >> 0u8 == unit) by (bit_vector);
            }
            assert(code == field_of(unit, t as int, field_index as int));
            assert(self@[pos as int] == code_nuc(code));
        }
        if code == 0 {
            Ok(Nuc::A)
        } else if code == 1 {
            Ok(Nuc::C)
        } else if code == 2 {
            Ok(Nuc::G)
        } else {
            Ok(Nuc::T)
        }
    }

    /// The diagnostic for an out-of-range index.
    fn index_error(idx: usize) -> (r: String)
        ensures
            r@ == index_error_msg(idx as nat),
    {
        let mut r = String::from_str("Index ");
        r.append(dec_string(idx).as_str());
        r.append(" is greater than the given DNA Length");
        proof {
            assert(r@ =~= index_error_msg(idx as nat));
        }
        r
    }

    /// The four symbol counts, one pair per alphabet member, in the fixed
    /// order A, C, G, T.
    pub fn get_counts(&self) -> (r: Vec<(char, usize)>)
        ensures
            r@.len() == 4,
            r@[0].0 == 'A' && r@[0].1 as nat == self.spec_count(Nuc::A),
            r@[1].0 == 'C' && r@[1].1 as nat == self.spec_count(Nuc::C),
            r@[2].0 == 'G' && r@[2].1 as nat == self.spec_count(Nuc::G),
            r@[3].0 == 'T' && r@[3].1 as nat == self.spec_count(Nuc::T),
    {
        let mut r: Vec<(char, usize)> = Vec::new();
        r.push(('A', self.a_count));
        r.push(('C', self.c_count));
        r.push(('G', self.g_count));
        r.push(('T', self.t_count));
        r
    }

    /// The packed storage units, for inspection.
    pub fn storage_units(&self) -> (r: &Vec<u8>)
        ensures
            r@ == self.spec_storage(),
    {
        &self.storage
    }

    /// How many symbol fields of the last storage unit are occupied.
    pub fn tail_count(&self) -> (r: usize)
        ensures
            r as nat == self.spec_tail(),
    {
        self.tail
    }
}

/// The diagnostic message for an out-of-range 1-based index.
pub open spec fn index_error_msg(idx: nat) -> Seq<char> {
    "Index "@ + dec_str(idx) + " is greater than the given DNA Length"@
}

/// The canonical encoding of a sequence is well formed and decodes back to
/// that sequence.
pub proof fn lemma_encodes_view(d: PackedDna, s: Seq<Nuc>)
    requires
        d.encodes(s),
    ensures
        d.wf(),
        d@ == s,
{
    let len = s.len() as int;
    let units = num_units(s.len()) as int;
    assert(d.spec_storage().len() == units);
    if s.len() % 4 == 0 {
        assert(4 * units == len);
    } else {
        assert(4 * (units - 1) + s.len() % 4 == len);
    }
    assert(d.spec_len() == len);
    assert forall|i: int| 0 <= i < len implies d.nuc_at(i) == s[i] by {
        let j = i / 4;
        let f = i % 4;
        assert(4 * j + f == i && 0 <= f < 4) by (nonlinear_arith)
            requires
                j == i / 4,
                f == i % 4,
                0 <= i,
        ;
        assert(0 <= j < units);
        let g = group_of(s, j);
        assert(d.spec_storage()[j] == unit_of(g));
        if 4 * j + 4 <= len {
            assert(g.len() == 4);
            assert(g[f] == s[i]);
            lemma_unit_fields(g);
            if j == units - 1 {
                assert(s.len() % 4 == 0);
            }
            assert(field_of(unit_of(g), 4, f) == nuc_code(s[i]));
        } else {
            assert(j == units - 1);
            assert(g.len() == len - 4 * j);
            assert(g.len() == s.len() % 4) by (nonlinear_arith)
                requires
                    j == i / 4,
                    0 <= i < len,
                    len == s.len(),
                    4 * j + 4 > len,
                    g.len() == len - 4 * j,
                    j == (len + 3) / 4 - 1,
            ;
            assert(g[f] == s[i]);
            lemma_unit_fields(g);
            assert(field_of(unit_of(g), g.len() as int, f) == nuc_code(s[i]));
        }
        assert(code_nuc(nuc_code(s[i])) == s[i]);
    }
    assert(d@ =~= s);
}

/// Count invariant, first half: the four counts sum to the length of the
/// sequence.
pub proof fn lemma_count_total(s: Seq<Nuc>)
    ensures
        count_nuc(s, Nuc::A) + count_nuc(s, Nuc::C) + count_nuc(s, Nuc::G) + count_nuc(s, Nuc::T)
            == s.len(),
    decreases s.len(),
{
    if s.len() > 0 {
        lemma_count_total(s.drop_last());
    }
}

/// Count invariant, second half: each count of the sequence a valid text
/// denotes equals the case-insensitive occurrences of that letter in the
/// text.
pub proof fn lemma_counts_match_text(s: Seq<char>, n: Nuc)
    requires
        valid_text(s),
    ensures
        count_nuc(parsed(s), n) == count_char_ci(s, n),
    decreases s.len(),
{
    if s.len() > 0 {
        let s0 = s.drop_last();
        lemma_counts_match_text(s0, n);
        assert(parsed(s).drop_last() =~= parsed(s0));
        assert(parsed(s).last() == char_nuc(s.last())->0);
    }
}

/// Round trip: decoding every position of a sequence built from a valid text
/// and writing the canonical letters reproduces the upper-cased text.
pub proof fn lemma_round_trip(d: PackedDna, s: Seq<char>)
    requires
        valid_text(s),
        d.encodes(parsed(s)),
    ensures
        Seq::new(d@.len(), |i: int| nuc_char(d@[i])) == upper_seq(s),
{
    lemma_encodes_view(d, parsed(s));
    assert forall|i: int| 0 <= i < s.len() implies nuc_char(#[trigger] parsed(s)[i]) == spec_upper(
        s[i],
    ) by {
        crate::nuc::lemma_char_nuc_upper(s[i]);
    }
    assert(Seq::new(d@.len(), |i: int| nuc_char(d@[i])) =~= upper_seq(s));
}

/// Boundary layout: an encoding has one storage unit per four symbols,
/// rounded up, and its tail occupancy is the length's remainder modulo four,
/// so a length that is an exact multiple of four fills its last unit.
pub proof fn lemma_layout(d: PackedDna, s: Seq<Nuc>)
    requires
        d.encodes(s),
    ensures
        d.spec_storage().len() == num_units(s.len()),
        d.spec_tail() == s.len() % 4,
        d@.len() == s.len(),
{
    lemma_encodes_view(d, s);
}

} // verus!
