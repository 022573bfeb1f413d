//! Skipping values without materializing them, and out-of-order tagged
//! field lookup built on it.

use vstd::prelude::*;
use crate::error::{DecodeError, DecodeResult};
use crate::reader::{tag_dec, TdfReader};
use crate::tag::TdfType;
use crate::types::UNION_UNSET;
use crate::varint::{trunc_usize, varint_dec};

verus! {

/// Bytes occupied by one value of the provided kind at the head of `s`,
/// or `None` when the stream is malformed or ends too early. The guards
/// demanding at least one byte per part can never fire (every part takes
/// a byte); they keep the recursion visibly well-founded.
#[verifier::opaque]
pub open spec fn skip_value(ty: TdfType, s: Seq<u8>) -> Option<int>
    decreases s.len(), 1int, 0int,
{
    match ty {
        TdfType::VarInt => match varint_dec(s) {
            Some((v, n)) => Some(n),
            None => None,
        },
        TdfType::String => skip_sized(s),
        TdfType::Blob => skip_sized(s),
        TdfType::Group => skip_fields(s),
        TdfType::List => {
            if s.len() == 0 {
                None
            } else {
                match TdfType::spec_from_value(s[0]) {
                    None => None,
                    Some(et) => match varint_dec(s.skip(1)) {
                        None => None,
                        Some((lv, n)) => {
                            if n < 1 || 1 + n > s.len() {
                                None
                            } else {
                                match skip_n(et, trunc_usize(lv) as int, s.skip(1 + n)) {
                                    None => None,
                                    Some(m) => Some(1 + n + m),
                                }
                            }
                        },
                    },
                }
            }
        },
        TdfType::Mapping => {
            if s.len() < 2 {
                None
            } else {
                match TdfType::spec_from_value(s[0]) {
                    None => None,
                    Some(kt) => match TdfType::spec_from_value(s[1]) {
                        None => None,
                        Some(vt) => match varint_dec(s.skip(2)) {
                            None => None,
                            Some((lv, n)) => {
                                if n < 1 || 2 + n > s.len() {
                                    None
                                } else {
                                    match skip_pairs(
                                        kt,
                                        vt,
                                        trunc_usize(lv) as int,
                                        s.skip(2 + n),
                                    ) {
                                        None => None,
                                        Some(m) => Some(2 + n + m),
                                    }
                                }
                            },
                        },
                    },
                }
            }
        },
        TdfType::Union => {
            if s.len() == 0 {
                None
            } else if s[0] == UNION_UNSET {
                Some(1)
            } else {
                match tag_dec(s.skip(1)) {
                    None => None,
                    Some((label, ity)) => match skip_value(ity, s.skip(5)) {
                        None => None,
                        Some(m) => Some(5 + m),
                    },
                }
            }
        },
        TdfType::VarIntList => match varint_dec(s) {
            None => None,
            Some((lv, n)) => {
                if n < 1 || n > s.len() {
                    None
                } else {
                    match skip_varints(trunc_usize(lv) as int, s.skip(n)) {
                        None => None,
                        Some(m) => Some(n + m),
                    }
                }
            },
        },
        TdfType::Pair => skip_varints(2, s),
        TdfType::Triple => skip_varints(3, s),
        TdfType::Float => {
            if s.len() < 4 {
                None
            } else {
                Some(4)
            }
        },
    }
}

/// Assembles the skip of a whole map from its parts.
proof fn lemma_skip_map_assemble(kt: TdfType, vt: TdfType, count: usize, s: Seq<u8>, n: int)
    requires
        s.len() >= 2,
        TdfType::spec_from_value(s[0]) == Some(kt),
        TdfType::spec_from_value(s[1]) == Some(vt),
        varint_dec(s.skip(2)) matches Some((lv, nn)) && nn == n && count == trunc_usize(lv),
        1 <= n,
        2 + n <= s.len(),
    ensures
        skip_value(TdfType::Mapping, s) == (match skip_pairs(kt, vt, count as int, s.skip(2 + n)) {
            None => None::<int>,
            Some(m) => Some(2 + n + m),
        }),
{
    reveal(skip_value);
    reveal(skip_pairs);
}

/// Bytes occupied by a length-prefixed value (string or blob).
pub open spec fn skip_sized(s: Seq<u8>) -> Option<int> {
    match varint_dec(s) {
        None => None,
        Some((lv, n)) => {
            let len = trunc_usize(lv) as int;
            if s.len() < n + len {
                None
            } else {
                Some(n + len)
            }
        },
    }
}

/// Bytes occupied by the fields of a group up to and including its
/// terminating zero byte, with an optional leading marker byte 0x02.
pub open spec fn skip_fields(s: Seq<u8>) -> Option<int>
    decreases s.len(), 0int, 0int,
{
    if s.len() == 0 {
        None
    } else if s[0] == 0 {
        Some(1)
    } else if s[0] == 2 {
        match skip_fields(s.skip(1)) {
            None => None,
            Some(m) => Some(1 + m),
        }
    } else {
        match tag_dec(s) {
            None => None,
            Some((label, ty)) => match skip_value(ty, s.skip(4)) {
                None => None,
                Some(c) => {
                    if c < 1 || 4 + c > s.len() {
                        None
                    } else {
                        match skip_fields(s.skip(4 + c)) {
                            None => None,
                            Some(m) => Some(4 + c + m),
                        }
                    }
                },
            },
        }
    }
}

/// Bytes occupied by `count` values of one kind, one after another.
pub open spec fn skip_n(ty: TdfType, count: int, s: Seq<u8>) -> Option<int>
    decreases s.len(), 2int, count,
{
    if count <= 0 {
        Some(0)
    } else {
        match skip_value(ty, s) {
            None => None,
            Some(c) => {
                if c < 1 || c > s.len() {
                    None
                } else {
                    match skip_n(ty, count - 1, s.skip(c)) {
                        None => None,
                        Some(m) => Some(c + m),
                    }
                }
            },
        }
    }
}

/// Bytes occupied by `count` key/value pairs of two kinds.
#[verifier::opaque]
pub open spec fn skip_pairs(kt: TdfType, vt: TdfType, count: int, s: Seq<u8>) -> Option<int>
    decreases s.len(), 2int, count,
{
    if count <= 0 {
        Some(0)
    } else {
        match skip_value(kt, s) {
            None => None,
            Some(c1) => {
                if c1 < 1 || c1 > s.len() {
                    None
                } else {
                    match skip_value(vt, s.skip(c1)) {
                        None => None,
                        Some(c2) => {
                            if c2 < 1 || c1 + c2 > s.len() {
                                None
                            } else {
                                match skip_pairs(kt, vt, count - 1, s.skip(c1 + c2)) {
                                    None => None,
                                    Some(m) => Some(c1 + c2 + m),
                                }
                            }
                        },
                    }
                }
            },
        }
    }
}

/// Bytes occupied by `count` VarInts, one after another.
pub open spec fn skip_varints(count: int, s: Seq<u8>) -> Option<int>
    decreases count,
{
    if count <= 0 {
        Some(0)
    } else {
        match varint_dec(s) {
            None => None,
            Some((v, n)) => match skip_varints(count - 1, s.skip(n)) {
                None => None,
                Some(m) => Some(n + m),
            },
        }
    }
}

/// A skipped value occupies at least one byte and no more than the stream.
pub proof fn lemma_skip_value_bounds(ty: TdfType, s: Seq<u8>)
    ensures
        skip_value(ty, s) matches Some(n) ==> 1 <= n <= s.len(),
    decreases s.len(), 1int, 0int,
{
    reveal(skip_value);
    reveal(skip_pairs);
    match ty {
        TdfType::VarInt => {
            crate::varint::lemma_varint_dec_bounds(s);
        },
        TdfType::String => {
            crate::varint::lemma_varint_dec_bounds(s);
        },
        TdfType::Blob => {
            crate::varint::lemma_varint_dec_bounds(s);
        },
        TdfType::Group => {
            lemma_skip_fields_bounds(s);
        },
        TdfType::List => {
            if s.len() > 0 && TdfType::spec_from_value(s[0]) is Some {
                let et = TdfType::spec_from_value(s[0])->Some_0;
                match varint_dec(s.skip(1)) {
                    Some((lv, n)) => {
                        if 1 <= n && 1 + n <= s.len() {
                            lemma_skip_n_bounds(et, trunc_usize(lv) as int, s.skip(1 + n));
                        }
                    },
                    None => {},
                }
            }
        },
        TdfType::Mapping => {
            if s.len() >= 2 && TdfType::spec_from_value(s[0]) is Some && TdfType::spec_from_value(
                s[1],
            ) is Some {
                let kt = TdfType::spec_from_value(s[0])->Some_0;
                let vt = TdfType::spec_from_value(s[1])->Some_0;
                match varint_dec(s.skip(2)) {
                    Some((lv, n)) => {
                        if 1 <= n && 2 + n <= s.len() {
                            lemma_skip_pairs_bounds(kt, vt, trunc_usize(lv) as int, s.skip(2 + n));
                        }
                    },
                    None => {},
                }
            }
        },
        TdfType::Union => {
            if s.len() > 0 && s[0] != UNION_UNSET {
                match tag_dec(s.skip(1)) {
                    Some((label, ity)) => {
                        lemma_skip_value_bounds(ity, s.skip(5));
                    },
                    None => {},
                }
            }
        },
        TdfType::VarIntList => {
            match varint_dec(s) {
                Some((lv, n)) => {
                    if 1 <= n && n <= s.len() {
                        lemma_skip_varints_bounds(trunc_usize(lv) as int, s.skip(n));
                    }
                },
                None => {},
            }
        },
        TdfType::Pair => {
            lemma_skip_varints_bounds(2, s);
        },
        TdfType::Triple => {
            lemma_skip_varints_bounds(3, s);
        },
        TdfType::Float => {},
    }
}

/// A skipped group body occupies at least one byte (its terminator) and no
/// more than the stream.
pub proof fn lemma_skip_fields_bounds(s: Seq<u8>)
    ensures
        skip_fields(s) matches Some(n) ==> 1 <= n <= s.len(),
    decreases s.len(), 0int, 0int,
{
    reveal(skip_value);
    if s.len() > 0 && s[0] == 2 {
        lemma_skip_fields_bounds(s.skip(1));
    } else if s.len() > 0 && s[0] != 0 {
        match tag_dec(s) {
            Some((label, ty)) => {
                lemma_skip_value_bounds(ty, s.skip(4));
                match skip_value(ty, s.skip(4)) {
                    Some(c) => {
                        if 1 <= c && 4 + c <= s.len() {
                            lemma_skip_fields_bounds(s.skip(4 + c));
                        }
                    },
                    None => {},
                }
            },
            None => {},
        }
    }
}

/// A skipped run of values occupies no more than the stream.
pub proof fn lemma_skip_n_bounds(ty: TdfType, count: int, s: Seq<u8>)
    ensures
        skip_n(ty, count, s) matches Some(n) ==> 0 <= n <= s.len(),
    decreases s.len(), 2int, count,
{
    reveal(skip_value);
    if count > 0 {
        lemma_skip_value_bounds(ty, s);
        match skip_value(ty, s) {
            Some(c) => {
                if 1 <= c && c <= s.len() {
                    lemma_skip_n_bounds(ty, count - 1, s.skip(c));
                }
            },
            None => {},
        }
    }
}

/// A skipped run of pairs occupies no more than the stream.
pub proof fn lemma_skip_pairs_bounds(kt: TdfType, vt: TdfType, count: int, s: Seq<u8>)
    ensures
        skip_pairs(kt, vt, count, s) matches Some(n) ==> 0 <= n <= s.len(),
    decreases s.len(), 2int, count,
{
    reveal(skip_value);
    reveal(skip_pairs);
    if count > 0 {
        lemma_skip_value_bounds(kt, s);
        match skip_value(kt, s) {
            Some(c1) => {
                if 1 <= c1 && c1 <= s.len() {
                    lemma_skip_value_bounds(vt, s.skip(c1));
                    match skip_value(vt, s.skip(c1)) {
                        Some(c2) => {
                            if 1 <= c2 && c1 + c2 <= s.len() {
                                lemma_skip_pairs_bounds(kt, vt, count - 1, s.skip(c1 + c2));
                            }
                        },
                        None => {},
                    }
                }
            },
            None => {},
        }
    }
}

/// A skipped run of VarInts occupies no more than the stream.
pub proof fn lemma_skip_varints_bounds(count: int, s: Seq<u8>)
    ensures
        skip_varints(count, s) matches Some(n) ==> 0 <= n <= s.len(),
        count > 0 ==> (skip_varints(count, s) matches Some(n) ==> 1 <= n),
    decreases count,
{
    reveal(skip_value);
    if count > 0 {
        crate::varint::lemma_varint_dec_bounds(s);
        match varint_dec(s) {
            Some((v, n)) => {
                lemma_skip_varints_bounds(count - 1, s.skip(n));
            },
            None => {},
        }
    }
}

/// One unfolding step of `skip_pairs`, stated as a lemma so that loops
/// can apply it without unwinding the definition in place.
pub proof fn lemma_skip_pairs_step(kt: TdfType, vt: TdfType, c: int, s: Seq<u8>)
    requires
        c > 0,
    ensures
        skip_pairs(kt, vt, c, s) == (match skip_value(kt, s) {
            None => None::<int>,
            Some(c1) => match skip_value(vt, s.skip(c1)) {
                None => None::<int>,
                Some(c2) => match skip_pairs(kt, vt, c - 1, s.skip(c1 + c2)) {
                    None => None::<int>,
                    Some(m) => Some(c1 + c2 + m),
                },
            },
        }),
{
    reveal(skip_value);
    reveal(skip_pairs);
    lemma_skip_value_bounds(kt, s);
    match skip_value(kt, s) {
        Some(c1) => {
            lemma_skip_value_bounds(vt, s.skip(c1));
        },
        None => {},
    }
}

/// Bytes occupied by one whole tagged field: the tag and its value.
pub open spec fn skip_field(s: Seq<u8>) -> Option<int> {
    match tag_dec(s) {
        None => None,
        Some((label, ty)) => match skip_value(ty, s.skip(4)) {
            None => None,
            Some(c) => Some(4 + c),
        },
    }
}

impl<'a> TdfReader<'a> {
    /// Consumes one value of the provided kind without materializing it.
    /// Every kind can be skipped, including nested groups, lists, maps and
    /// unions.
    pub fn skip_type(&mut self, ty: TdfType) -> (r: DecodeResult<()>)
        requires
            old(self).wf(),
        ensures
            final(self).wf(),
            final(self).buffer == old(self).buffer,
            final(self).cursor >= old(self).cursor,
            match r {
                Ok(u) => skip_value(ty, old(self).rem()) matches Some(n) && final(self).cursor
                    == old(self).cursor + n,
                Err(e) => skip_value(ty, old(self).rem()) is None && (e is UnexpectedEof
                    || e is UnknownType),
            },
        decreases self.buffer@.len() - self.cursor, 2int,
    {
        proof {
            reveal(skip_value);
        }
        match ty {
            TdfType::VarInt => {
                match self.read_u64() {
                    Ok(v) => Ok(()),
                    Err(e) => Err(e),
                }
            },
            TdfType::String => self.skip_sized_value(),
            TdfType::Blob => self.skip_sized_value(),
            TdfType::Group => self.skip_group_fields(),
            TdfType::List => self.skip_list_value(),
            TdfType::Mapping => self.skip_map_value(),
            TdfType::Union => self.skip_union_value(),
            TdfType::VarIntList => {
                let ghost entry = *self;
                let count = match self.read_usize() {
                    Ok(v) => v,
                    Err(e) => {
                        return Err(e);
                    },
                };
                let ghost hdr = *self;
                proof {
                    crate::varint::lemma_varint_dec_bounds(entry.rem());
                    assert(hdr.rem() =~= entry.rem().skip(hdr.cursor - entry.cursor));
                }
                match self.skip_varint_run(count) {
                    Ok(u) => Ok(()),
                    Err(e) => Err(e),
                }
            },
            TdfType::Pair => {
                match self.skip_varint_run(2) {
                    Ok(u) => Ok(()),
                    Err(e) => Err(e),
                }
            },
            TdfType::Triple => {
                match self.skip_varint_run(3) {
                    Ok(u) => Ok(()),
                    Err(e) => Err(e),
                }
            },
            TdfType::Float => {
                match self.read_slice(4) {
                    Ok(b) => Ok(()),
                    Err(e) => Err(e),
                }
            },
        }
    }

    /// Consumes a list value: its element kind byte, its count, and that
    /// many elements.
    #[verifier::loop_isolation(false)]
    #[verifier::rlimit(100)]
    #[verifier::spinoff_prover]
    fn skip_list_value(&mut self) -> (r: DecodeResult<()>)
        requires
            old(self).wf(),
        ensures
            final(self).wf(),
            final(self).buffer == old(self).buffer,
            final(self).cursor >= old(self).cursor,
            match r {
                Ok(u) => skip_value(TdfType::List, old(self).rem()) matches Some(n) && final(self).cursor == old(self).cursor + n,
                Err(e) => skip_value(TdfType::List, old(self).rem()) is None && (e is UnexpectedEof
                    || e is UnknownType),
            },
        decreases self.buffer@.len() - self.cursor, 1int,
    {
        proof {
            reveal(skip_value);
        }
        let ghost entry = *self;
        let et = match self.read_type() {
            Ok(t) => t,
            Err(e) => {
                return Err(e);
            },
        };
        let ghost s1 = *self;
        proof {
            assert(s1.rem() =~= entry.rem().skip(1));
        }
        let count = match self.read_usize() {
            Ok(v) => v,
            Err(e) => {
                return Err(e);
            },
        };
        let ghost hdr = *self;
        proof {
            crate::varint::lemma_varint_dec_bounds(s1.rem());
            assert(hdr.rem() =~= s1.rem().skip(hdr.cursor - s1.cursor));
            assert(hdr.rem() =~= entry.rem().skip(1 + (hdr.cursor - s1.cursor)));
        }
        let mut i: usize = 0;
        while i < count
            invariant
                i <= count,
                self.wf(),
                self.buffer == entry.buffer,
                self.cursor >= hdr.cursor,
                match skip_n(et, count - i, self.rem()) {
                    Some(m) => skip_n(et, count as int, hdr.rem()) == Some(
                        (self.cursor - hdr.cursor) + m,
                    ),
                    None => skip_n(et, count as int, hdr.rem()) is None,
                },
            decreases count - i,
        {
            let ghost cur = *self;
            match self.skip_type(et) {
                Ok(u) => {
                    proof {
                        lemma_skip_value_bounds(et, cur.rem());
                        assert(self.rem() =~= cur.rem().skip(self.cursor - cur.cursor));
                    }
                    i = i + 1;
                },
                Err(e) => {
                    proof {
                        assert(skip_n(et, count - i, cur.rem()) is None);
                    }
                    return Err(e);
                },
            }
        }
        proof {
            assert(skip_n(et, 0, self.rem()) == Some(0int));
            assert(skip_value(TdfType::List, entry.rem()) matches Some(n) && self.cursor
                == entry.cursor + n);
        }
        Ok(())
    }

    /// Consumes a map value: both kind bytes, the entry count, and that
    /// many key/value pairs.
    fn skip_map_value(&mut self) -> (r: DecodeResult<()>)
        requires
            old(self).wf(),
        ensures
            final(self).wf(),
            final(self).buffer == old(self).buffer,
            final(self).cursor >= old(self).cursor,
            match r {
                Ok(u) => skip_value(TdfType::Mapping, old(self).rem()) matches Some(n) && final(self).cursor == old(self).cursor + n,
                Err(e) => skip_value(TdfType::Mapping, old(self).rem()) is None && (e is UnexpectedEof
                    || e is UnknownType),
            },
        decreases self.buffer@.len() - self.cursor, 1int,
    {
        proof {
            reveal(skip_value);
        }
        let ghost entry = *self;
        let kt = match self.read_type() {
            Ok(t) => t,
            Err(e) => {
                return Err(e);
            },
        };
        let ghost s1 = *self;
        proof {
            assert(s1.rem() =~= entry.rem().skip(1));
        }
        let vt = match self.read_type() {
            Ok(t) => t,
            Err(e) => {
                proof {
                    if s1.rem().len() > 0 {
                        assert(entry.rem()[1] == s1.rem()[0]);
                    }
                }
                return Err(e);
            },
        };
        let ghost s2 = *self;
        proof {
            assert(entry.rem()[1] == s1.rem()[0]);
            assert(s2.rem() =~= entry.rem().skip(2));
        }
        let count = match self.read_usize() {
            Ok(v) => v,
            Err(e) => {
                return Err(e);
            },
        };
        let ghost hdr = *self;
        proof {
            crate::varint::lemma_varint_dec_bounds(s2.rem());
            assert(hdr.rem() =~= s2.rem().skip(hdr.cursor - s2.cursor));
            assert(hdr.rem() =~= entry.rem().skip(2 + (hdr.cursor - s2.cursor)));
        }
        let ghost n = hdr.cursor - s2.cursor;
        proof {
            assert(varint_dec(entry.rem().skip(2)) == varint_dec(s2.rem()));
            lemma_skip_map_assemble(kt, vt, count, entry.rem(), n);
            assert(skip_pairs(kt, vt, count as int, entry.rem().skip(2 + n)) == skip_pairs(
                kt,
                vt,
                count as int,
                hdr.rem(),
            ));
        }
        match self.skip_pair_run(kt, vt, count) {
            Ok(u) => Ok(()),
            Err(e) => Err(e),
        }
    }

    /// Consumes a run of `count` key/value pairs of two kinds.
    #[verifier::rlimit(100)]
    #[verifier::spinoff_prover]
    fn skip_pair_run(&mut self, kt: TdfType, vt: TdfType, count: usize) -> (r: DecodeResult<()>)
        requires
            old(self).wf(),
        ensures
            final(self).wf(),
            final(self).buffer == old(self).buffer,
            final(self).cursor >= old(self).cursor,
            match r {
                Ok(u) => skip_pairs(kt, vt, count as int, old(self).rem()) matches Some(n)
                    && final(self).cursor == old(self).cursor + n,
                Err(e) => skip_pairs(kt, vt, count as int, old(self).rem()) is None && (e is UnexpectedEof
                    || e is UnknownType),
            },
        decreases self.buffer@.len() - self.cursor, 3int, count as int,
    {
        let ghost entry = *self;
        if count == 0 {
            proof {
                reveal(skip_pairs);
            }
            return Ok(());
        }
        proof {
            lemma_skip_pairs_step(kt, vt, count as int, entry.rem());
        }
        match self.skip_type(kt) {
            Ok(u) => {},
            Err(e) => {
                return Err(e);
            },
        }
        proof {
            lemma_skip_value_bounds(kt, entry.rem());
            assert(self.rem() =~= entry.rem().skip(self.cursor - entry.cursor));
        }
        let ghost mid = *self;
        match self.skip_type(vt) {
            Ok(u) => {},
            Err(e) => {
                return Err(e);
            },
        }
        proof {
            lemma_skip_value_bounds(vt, mid.rem());
            assert(self.rem() =~= mid.rem().skip(self.cursor - mid.cursor));
            assert(self.rem() =~= entry.rem().skip(self.cursor - entry.cursor));
        }
        match self.skip_pair_run(kt, vt, count - 1) {
            Ok(u) => Ok(()),
            Err(e) => Err(e),
        }
    }

    /// Consumes a union value: the key byte alone when unset, otherwise
    /// the inner tag and its value.
    fn skip_union_value(&mut self) -> (r: DecodeResult<()>)
        requires
            old(self).wf(),
        ensures
            final(self).wf(),
            final(self).buffer == old(self).buffer,
            final(self).cursor >= old(self).cursor,
            match r {
                Ok(u) => skip_value(TdfType::Union, old(self).rem()) matches Some(n) && final(self).cursor == old(self).cursor + n,
                Err(e) => skip_value(TdfType::Union, old(self).rem()) is None && (e is UnexpectedEof
                    || e is UnknownType),
            },
        decreases self.buffer@.len() - self.cursor, 1int,
    {
        proof {
            reveal(skip_value);
        }
        let ghost entry = *self;
        let key = match self.read_byte() {
            Ok(b) => b,
            Err(e) => {
                return Err(e);
            },
        };
        if key == UNION_UNSET {
            return Ok(());
        }
        let ghost s1 = *self;
        proof {
            assert(s1.rem() =~= entry.rem().skip(1));
        }
        let tag = match self.read_tag() {
            Ok(t) => t,
            Err(e) => {
                return Err(e);
            },
        };
        let ghost s5 = *self;
        proof {
            assert(s5.rem() =~= entry.rem().skip(5));
        }
        match self.skip_type(tag.1) {
            Ok(u) => Ok(()),
            Err(e) => Err(e),
        }
    }

    /// Consumes a length-prefixed value (string or blob) without reading
    /// its bytes into anything.
    fn skip_sized_value(&mut self) -> (r: DecodeResult<()>)
        requires
            old(self).wf(),
        ensures
            final(self).wf(),
            final(self).buffer == old(self).buffer,
            final(self).cursor >= old(self).cursor,
            match r {
                Ok(u) => skip_sized(old(self).rem()) matches Some(n) && final(self).cursor == old(
                    self,
                ).cursor + n,
                Err(e) => skip_sized(old(self).rem()) is None && (e is UnexpectedEof || e is UnknownType),
            },
    {
        let ghost entry = *self;
        let length = match self.read_usize() {
            Ok(v) => v,
            Err(e) => {
                return Err(e);
            },
        };
        let ghost mid = *self;
        proof {
            crate::varint::lemma_varint_dec_bounds(entry.rem());
            assert(mid.rem() =~= entry.rem().skip(mid.cursor - entry.cursor));
        }
        match self.read_slice(length) {
            Ok(b) => Ok(()),
            Err(e) => Err(e),
        }
    }

    /// Consumes the fields of a group up to and including the zero byte
    /// that closes it, tolerating a leading marker byte 0x02.
    #[verifier::loop_isolation(false)]
    fn skip_group_fields(&mut self) -> (r: DecodeResult<()>)
        requires
            old(self).wf(),
        ensures
            final(self).wf(),
            final(self).buffer == old(self).buffer,
            final(self).cursor >= old(self).cursor,
            match r {
                Ok(u) => skip_fields(old(self).rem()) matches Some(n) && final(self).cursor == old(
                    self,
                ).cursor + n,
                Err(e) => skip_fields(old(self).rem()) is None && (e is UnexpectedEof
                    || e is UnknownType),
            },
        decreases self.buffer@.len() - self.cursor, 0int,
    {
        proof {
            reveal(skip_value);
        }
        let ghost entry = *self;
        if self.cursor >= self.buffer.len() {
            return Err(
                DecodeError::UnexpectedEof { cursor: self.cursor, wanted: 1, remaining: 0 },
            );
        }
        let b = self.buffer[self.cursor];
        if b == 0 {
            self.cursor = self.cursor + 1;
            return Ok(());
        }
        if b == 2 {
            self.cursor = self.cursor + 1;
            let ghost s1 = *self;
            proof {
                assert(s1.rem() =~= entry.rem().skip(1));
            }
            return match self.skip_group_fields() {
                Ok(u) => Ok(()),
                Err(e) => Err(e),
            };
        }
        let tag = match self.read_tag() {
            Ok(t) => t,
            Err(e) => {
                return Err(e);
            },
        };
        let ghost s4 = *self;
        proof {
            assert(s4.rem() =~= entry.rem().skip(4));
        }
        match self.skip_type(tag.1) {
            Ok(u) => {},
            Err(e) => {
                return Err(e);
            },
        }
        let ghost sc = *self;
        proof {
            lemma_skip_value_bounds(tag.1, s4.rem());
            assert(sc.rem() =~= entry.rem().skip(sc.cursor - entry.cursor));
        }
        match self.skip_group_fields() {
            Ok(u) => Ok(()),
            Err(e) => Err(e),
        }
    }

    /// Consumes a run of `count` VarInts.
    #[verifier::loop_isolation(false)]
    fn skip_varint_run(&mut self, count: usize) -> (r: DecodeResult<()>)
        requires
            old(self).wf(),
        ensures
            final(self).wf(),
            final(self).buffer == old(self).buffer,
            final(self).cursor >= old(self).cursor,
            match r {
                Ok(u) => skip_varints(count as int, old(self).rem()) matches Some(n) && final(self).cursor == old(self).cursor + n,
                Err(e) => skip_varints(count as int, old(self).rem()) is None && (e is UnexpectedEof
                    || e is UnknownType),
            },
    {
        let ghost entry = *self;
        let mut i: usize = 0;
        while i < count
            invariant
                i <= count,
                self.wf(),
                self.buffer == entry.buffer,
                self.cursor >= entry.cursor,
                match skip_varints(count - i, self.rem()) {
                    Some(m) => skip_varints(count as int, entry.rem()) == Some(
                        (self.cursor - entry.cursor) + m,
                    ),
                    None => skip_varints(count as int, entry.rem()) is None,
                },
            decreases count - i,
        {
            let ghost cur = *self;
            match self.read_u64() {
                Ok(v) => {
                    proof {
                        crate::varint::lemma_varint_dec_bounds(cur.rem());
                        assert(self.rem() =~= cur.rem().skip(self.cursor - cur.cursor));
                    }
                    i = i + 1;
                },
                Err(e) => {
                    proof {
                        assert(skip_varints(count - i, cur.rem()) is None);
                    }
                    return Err(e);
                },
            }
        }
        proof {
            assert(skip_varints(0, self.rem()) == Some(0int));
        }
        Ok(())
    }

    /// Consumes one whole tagged field: its tag, then its value.
    pub fn skip(&mut self) -> (r: DecodeResult<()>)
        requires
            old(self).wf(),
        ensures
            final(self).wf(),
            final(self).buffer == old(self).buffer,
            final(self).cursor >= old(self).cursor,
            match r {
                Ok(u) => skip_field(old(self).rem()) matches Some(n) && final(self).cursor == old(
                    self,
                ).cursor + n,
                Err(e) => skip_field(old(self).rem()) is None && (e is UnexpectedEof || e is UnknownType),
            },
    {
        let ghost entry = *self;
        let tag = match self.read_tag() {
            Ok(t) => t,
            Err(e) => {
                return Err(e);
            },
        };
        let ghost s4 = *self;
        proof {
            assert(s4.rem() =~= entry.rem().skip(4));
        }
        match self.skip_type(tag.1) {
            Ok(u) => Ok(()),
            Err(e) => Err(e),
        }
    }
}

/// Bytes consumed when scanning for a tag with the provided label: whole
/// fields are skipped until the label matches, and the match must carry
/// the expected kind. The count positions the reader just after the
/// matching tag, on its value.
pub open spec fn until_tag_dec(lbl: Seq<u8>, ty: TdfType, s: Seq<u8>) -> Option<int>
    decreases s.len(),
{
    match tag_dec(s) {
        None => None,
        Some((l2, t2)) => {
            if l2 == lbl {
                if t2 == ty {
                    Some(4)
                } else {
                    None
                }
            } else {
                match skip_value(t2, s.skip(4)) {
                    None => None,
                    Some(c) => {
                        if c < 1 || 4 + c > s.len() {
                            None
                        } else {
                            match until_tag_dec(lbl, ty, s.skip(4 + c)) {
                                None => None,
                                Some(m) => Some(4 + c + m),
                            }
                        }
                    },
                }
            }
        },
    }
}

/// The kind found when the scan reaches a tag with the sought label but
/// of another kind: the case that ends a lookup with a tag-kind error
/// instead of a missing tag.
pub open spec fn until_tag_clash(lbl: Seq<u8>, ty: TdfType, s: Seq<u8>) -> Option<TdfType>
    decreases s.len(),
{
    match tag_dec(s) {
        None => None,
        Some((l2, t2)) => {
            if l2 == lbl {
                if t2 == ty {
                    None
                } else {
                    Some(t2)
                }
            } else {
                match skip_value(t2, s.skip(4)) {
                    None => None,
                    Some(c) => {
                        if c < 1 || 4 + c > s.len() {
                            None
                        } else {
                            until_tag_clash(lbl, ty, s.skip(4 + c))
                        }
                    },
                }
            }
        },
    }
}

/// A successful scan never reports a kind clash: the two outcomes follow
/// the same path and part ways only at the sought label.
pub proof fn lemma_until_tag_exclusive(lbl: Seq<u8>, ty: TdfType, s: Seq<u8>)
    ensures
        until_tag_dec(lbl, ty, s) is Some ==> until_tag_clash(lbl, ty, s) is None,
    decreases s.len(),
{
    match tag_dec(s) {
        None => {},
        Some((l2, t2)) => {
            if l2 != lbl {
                match skip_value(t2, s.skip(4)) {
                    None => {},
                    Some(c) => {
                        if 1 <= c && 4 + c <= s.len() {
                            lemma_until_tag_exclusive(lbl, ty, s.skip(4 + c));
                        }
                    },
                }
            }
        },
    }
}

/// Whether two byte strings hold the same bytes.
pub fn bytes_eq(a: &[u8], b: &[u8]) -> (r: bool)
    ensures
        r == (a@ == b@),
{
    if a.len() != b.len() {
        proof {
            assert(a@.len() != b@.len());
        }
        return false;
    }
    let mut i: usize = 0;
    while i < a.len()
        invariant
            i <= a@.len(),
            a@.len() == b@.len(),
            forall|j: int| 0 <= j < i ==> a@[j] == b@[j],
        decreases a@.len() - i,
    {
        if a[i] != b[i] {
            return false;
        }
        i = i + 1;
    }
    proof {
        assert(a@ =~= b@);
    }
    true
}

impl<'a> TdfReader<'a> {
    /// Scans forward for a tag with the provided label, skipping whole
    /// fields, and leaves the reader on the matching tag's value. A found
    /// label of another kind is a kind error; a reader that runs out is a
    /// missing-tag error.
    pub fn until_tag(&mut self, tag: &[u8], ty: TdfType) -> (r: DecodeResult<()>)
        requires
            old(self).wf(),
        ensures
            final(self).wf(),
            final(self).buffer == old(self).buffer,
            final(self).cursor >= old(self).cursor,
            match r {
                Ok(u) => until_tag_dec(tag@, ty, old(self).rem()) matches Some(n)
                    && final(self).cursor == old(self).cursor + n,
                Err(e) => until_tag_dec(tag@, ty, old(self).rem()) is None && (match until_tag_clash(
                    tag@,
                    ty,
                    old(self).rem(),
                ) {
                    Some(found) => e matches DecodeError::InvalidTagType {
                        tag: l,
                        expected,
                        actual,
                    } && l@ == tag@ && expected == ty && actual == found,
                    None => !(e is InvalidTagType) && (e is MissingTag || e is UnexpectedEof
                        || e is UnknownType),
                }),
            },
        decreases self.buffer@.len() - self.cursor,
    {
        let ghost entry = *self;
        let found = match self.read_tag() {
            Ok(t) => t,
            Err(e) => {
                return Err(
                    match e {
                        DecodeError::UnexpectedEof { cursor, wanted, remaining } => {
                            DecodeError::MissingTag { tag: vstd::slice::slice_to_vec(tag), ty }
                        },
                        other => other,
                    },
                );
            },
        };
        if bytes_eq(found.0.as_slice(), tag) {
            if found.1 == ty {
                return Ok(());
            }
            return Err(DecodeError::InvalidTagType { tag: found.0, expected: ty, actual: found.1 });
        }
        let ghost s4 = *self;
        proof {
            assert(s4.rem() =~= entry.rem().skip(4));
        }
        match self.skip_type(found.1) {
            Ok(u) => {},
            Err(e) => {
                return Err(e);
            },
        }
        let ghost sc = *self;
        proof {
            lemma_skip_value_bounds(found.1, s4.rem());
            assert(sc.rem() =~= entry.rem().skip(sc.cursor - entry.cursor));
        }
        match self.until_tag(tag, ty) {
            Ok(u) => Ok(()),
            Err(e) => Err(e),
        }
    }

    /// Speculative lookup: scans like `until_tag`, but when the tag is not
    /// found, restores the reader to where it stood and reports the miss
    /// instead of failing.
    pub fn try_until_tag(&mut self, tag: &[u8], ty: TdfType) -> (r: bool)
        requires
            old(self).wf(),
        ensures
            final(self).wf(),
            final(self).buffer == old(self).buffer,
            r == (until_tag_dec(tag@, ty, old(self).rem()) is Some),
            r ==> final(self).cursor == old(self).cursor + until_tag_dec(
                tag@,
                ty,
                old(self).rem(),
            )->Some_0,
            !r ==> *final(self) == *old(self),
    {
        let start = self.cursor;
        match self.until_tag(tag, ty) {
            Ok(u) => true,
            Err(e) => {
                self.cursor = start;
                false
            },
        }
    }
}

/// One tagged field on the wire: the tag, then the value's bytes.
pub open spec fn field_enc(l: Seq<u8>, t: TdfType, b: Seq<u8>) -> Seq<u8> {
    crate::tag::tag_enc(l, t) + b
}

/// Whether looking the label up in `s` lands exactly on the bytes `b`.
pub open spec fn finds_field(lbl: Seq<u8>, ty: TdfType, b: Seq<u8>, s: Seq<u8>) -> bool {
    match until_tag_dec(lbl, ty, s) {
        Some(n) => n + b.len() <= s.len() && s.subrange(n, n + b.len()) == b,
        None => false,
    }
}

/// Scanning finds the sought tag at once when it heads the stream.
pub proof fn lemma_until_tag_found(lbl: Seq<u8>, ty: TdfType, tail: Seq<u8>)
    requires
        crate::tag::label_ok(lbl),
    ensures
        until_tag_dec(lbl, ty, crate::tag::tag_enc(lbl, ty) + tail) == Some(4int),
{
    let te = crate::tag::tag_enc(lbl, ty);
    let s = te + tail;
    crate::tag::lemma_tag_round_trip(lbl, ty);
    assert(s[0] == te[0] && s[1] == te[1] && s[2] == te[2] && s[3] == te[3]);
    assert(crate::tag::tag_unpack(s) =~= crate::tag::tag_unpack(te));
    assert(tag_dec(s) == Some((lbl, ty)));
}

/// Scanning steps over one whole leading field carrying another label.
pub proof fn lemma_until_tag_skips(
    l1: Seq<u8>,
    t1: TdfType,
    b1: Seq<u8>,
    lbl: Seq<u8>,
    ty: TdfType,
    rest: Seq<u8>,
)
    requires
        crate::tag::label_ok(l1),
        l1 != lbl,
        skip_value(t1, b1 + rest) == Some(b1.len() as int),
    ensures
        until_tag_dec(lbl, ty, field_enc(l1, t1, b1) + rest) == (match until_tag_dec(
            lbl,
            ty,
            rest,
        ) {
            None => None::<int>,
            Some(m) => Some(4 + b1.len() + m),
        }),
{
    let te = crate::tag::tag_enc(l1, t1);
    let s = field_enc(l1, t1, b1) + rest;
    crate::tag::lemma_tag_round_trip(l1, t1);
    assert(s[0] == te[0] && s[1] == te[1] && s[2] == te[2] && s[3] == te[3]);
    assert(crate::tag::tag_unpack(s) =~= crate::tag::tag_unpack(te));
    assert(tag_dec(s) == Some((l1, t1)));
    assert(s.skip(4) =~= b1 + rest);
    lemma_skip_value_bounds(t1, b1 + rest);
    assert(s.skip(4 + b1.len() as int) =~= rest);
}

/// Field-order independence: a record of three whole tagged fields with
/// distinct labels yields, under tagged lookup, each field's own value
/// bytes, in every one of the three orders.
pub proof fn lemma_field_order_independent(
    la: Seq<u8>,
    ta: TdfType,
    ba: Seq<u8>,
    lb: Seq<u8>,
    tb: TdfType,
    bb: Seq<u8>,
    lc: Seq<u8>,
    tc: TdfType,
    bc: Seq<u8>,
)
    requires
        crate::tag::label_ok(la),
        crate::tag::label_ok(lb),
        crate::tag::label_ok(lc),
        la != lb,
        lb != lc,
        la != lc,
        forall|rest: Seq<u8>| skip_value(ta, #[trigger] (ba + rest)) == Some(ba.len() as int),
        forall|rest: Seq<u8>| skip_value(tb, #[trigger] (bb + rest)) == Some(bb.len() as int),
        forall|rest: Seq<u8>| skip_value(tc, #[trigger] (bc + rest)) == Some(bc.len() as int),
    ensures
        ({
            let abc = field_enc(la, ta, ba) + field_enc(lb, tb, bb) + field_enc(lc, tc, bc);
            let cba = field_enc(lc, tc, bc) + field_enc(lb, tb, bb) + field_enc(la, ta, ba);
            let bac = field_enc(lb, tb, bb) + field_enc(la, ta, ba) + field_enc(lc, tc, bc);
            &&& finds_field(la, ta, ba, abc) && finds_field(lb, tb, bb, abc) && finds_field(
                lc,
                tc,
                bc,
                abc,
            )
            &&& finds_field(la, ta, ba, cba) && finds_field(lb, tb, bb, cba) && finds_field(
                lc,
                tc,
                bc,
                cba,
            )
            &&& finds_field(la, ta, ba, bac) && finds_field(lb, tb, bb, bac) && finds_field(
                lc,
                tc,
                bc,
                bac,
            )
        }),
{
    lemma_three_fields(la, ta, ba, lb, tb, bb, lc, tc, bc);
    lemma_three_fields(lc, tc, bc, lb, tb, bb, la, ta, ba);
    lemma_three_fields(lb, tb, bb, la, ta, ba, lc, tc, bc);
}

/// In a run of three whole tagged fields with distinct labels, lookup
/// lands each label on its own field's value bytes.
pub proof fn lemma_three_fields(
    l1: Seq<u8>,
    t1: TdfType,
    b1: Seq<u8>,
    l2: Seq<u8>,
    t2: TdfType,
    b2: Seq<u8>,
    l3: Seq<u8>,
    t3: TdfType,
    b3: Seq<u8>,
)
    requires
        crate::tag::label_ok(l1),
        crate::tag::label_ok(l2),
        crate::tag::label_ok(l3),
        l1 != l2,
        l2 != l3,
        l1 != l3,
        forall|rest: Seq<u8>| skip_value(t1, #[trigger] (b1 + rest)) == Some(b1.len() as int),
        forall|rest: Seq<u8>| skip_value(t2, #[trigger] (b2 + rest)) == Some(b2.len() as int),
        forall|rest: Seq<u8>| skip_value(t3, #[trigger] (b3 + rest)) == Some(b3.len() as int),
    ensures
        finds_field(
            l1,
            t1,
            b1,
            field_enc(l1, t1, b1) + field_enc(l2, t2, b2) + field_enc(l3, t3, b3),
        ),
        finds_field(
            l2,
            t2,
            b2,
            field_enc(l1, t1, b1) + field_enc(l2, t2, b2) + field_enc(l3, t3, b3),
        ),
        finds_field(
            l3,
            t3,
            b3,
            field_enc(l1, t1, b1) + field_enc(l2, t2, b2) + field_enc(l3, t3, b3),
        ),
{
    let f1 = field_enc(l1, t1, b1);
    let f2 = field_enc(l2, t2, b2);
    let f3 = field_enc(l3, t3, b3);
    let s = f1 + f2 + f3;
    assert(s =~= f1 + (f2 + f3));
    assert(f2 + f3 =~= f2 + (f3 + Seq::<u8>::empty()));

    // the first label heads the stream
    lemma_until_tag_found(l1, t1, b1 + (f2 + f3));
    assert(crate::tag::tag_enc(l1, t1) + (b1 + (f2 + f3)) =~= s);
    assert(until_tag_dec(l1, t1, s) == Some(4int));
    assert(s.subrange(4, 4 + b1.len() as int) =~= b1);

    // the second is found after skipping the first field
    lemma_until_tag_found(l2, t2, b2 + f3);
    assert(crate::tag::tag_enc(l2, t2) + (b2 + f3) =~= f2 + f3);
    lemma_until_tag_skips(l1, t1, b1, l2, t2, f2 + f3);
    assert(until_tag_dec(l2, t2, s) == Some(4 + b1.len() as int + 4));
    assert(s.skip(4 + b1.len() as int + 4) =~= b2 + f3);
    assert(s.subrange(
        4 + b1.len() as int + 4,
        4 + b1.len() as int + 4 + b2.len(),
    ) =~= b2);

    // the third is found after skipping the first two fields
    lemma_until_tag_found(l3, t3, b3 + Seq::<u8>::empty());
    assert(crate::tag::tag_enc(l3, t3) + (b3 + Seq::<u8>::empty()) =~= f3);
    lemma_until_tag_skips(l2, t2, b2, l3, t3, f3);
    assert(f2 + f3 =~= field_enc(l2, t2, b2) + f3);
    lemma_until_tag_skips(l1, t1, b1, l3, t3, f2 + f3);
    assert(until_tag_dec(l3, t3, s) == Some(4 + b1.len() as int + (4 + b2.len() as int + 4)));
    let n3 = 4 + b1.len() as int + 4 + b2.len() + 4;
    assert(s.skip(n3) =~= b3 + Seq::<u8>::empty());
    assert(b3 + Seq::<u8>::empty() =~= b3);
    assert(s.subrange(n3, n3 + b3.len()) =~= b3);
}

/// The bytes of a run of tagged fields, one after another.
pub open spec fn fields_bytes(fs: Seq<(Seq<u8>, TdfType, Seq<u8>)>) -> Seq<u8>
    decreases fs.len(),
{
    if fs.len() == 0 {
        Seq::<u8>::empty()
    } else {
        field_enc(fs[0].0, fs[0].1, fs[0].2) + fields_bytes(fs.skip(1))
    }
}

/// Every field of the run is whole: its label is from the six-bit
/// alphabet and its value bytes are one whole skippable value of its kind.
pub open spec fn fields_whole(fs: Seq<(Seq<u8>, TdfType, Seq<u8>)>) -> bool {
    &&& forall|i: int| 0 <= i < fs.len() ==> crate::tag::label_ok(#[trigger] fs[i].0)
    &&& forall|i: int, rest: Seq<u8>|
        0 <= i < fs.len() ==> skip_value(fs[i].1, #[trigger] (fs[i].2 + rest)) == Some(
            fs[i].2.len() as int,
        )
}

/// The wire form of a group value: an optional leading marker byte, the
/// fields, then the terminating zero byte.
pub open spec fn group_enc(marker: bool, body: Seq<u8>) -> Seq<u8> {
    (if marker {
        seq![2u8]
    } else {
        Seq::<u8>::empty()
    }) + body + seq![0u8]
}

/// A zero-terminated run of whole fields skips as one piece, up to and
/// including the terminator, whatever bytes follow.
#[verifier::rlimit(100)]
#[verifier::spinoff_prover]
pub proof fn lemma_fields_skip(fs: Seq<(Seq<u8>, TdfType, Seq<u8>)>, rest: Seq<u8>)
    requires
        fields_whole(fs),
    ensures
        skip_fields(fields_bytes(fs) + (seq![0u8] + rest)) == Some(
            fields_bytes(fs).len() + 1 as int,
        ),
    decreases fs.len(),
{
    let s = fields_bytes(fs) + (seq![0u8] + rest);
    if fs.len() == 0 {
        assert(s[0] == 0);
    } else {
        let l0 = fs[0].0;
        let t0 = fs[0].1;
        let b0 = fs[0].2;
        let te = crate::tag::tag_enc(l0, t0);
        let tail = fields_bytes(fs.skip(1)) + (seq![0u8] + rest);
        assert(s =~= te + (b0 + tail));
        crate::tag::lemma_tag_round_trip(l0, t0);
        crate::tag::lemma_label_pack_leading(l0);
        assert(s[0] == te[0] && s[1] == te[1] && s[2] == te[2] && s[3] == te[3]);
        assert(s[0] != 0 && s[0] != 2);
        assert(crate::tag::tag_unpack(s) =~= crate::tag::tag_unpack(te));
        assert(tag_dec(s) == Some((l0, t0)));
        assert(skip_value(t0, b0 + tail) == Some(b0.len() as int));
        assert(s.skip(4) =~= b0 + tail);
        lemma_skip_value_bounds(t0, b0 + tail);
        assert(s.skip(4 + b0.len() as int) =~= tail);
        assert(fields_whole(fs.skip(1))) by {
            assert(forall|i: int|
                0 <= i < fs.skip(1).len() ==> fs.skip(1)[i] == fs[i + 1]);
        }
        lemma_fields_skip(fs.skip(1), rest);
        assert(skip_fields(tail) == Some(fields_bytes(fs.skip(1)).len() + 1 as int));
        assert(skip_fields(s.skip(4 + b0.len() as int)) == Some(
            fields_bytes(fs.skip(1)).len() + 1 as int,
        ));
        assert(1 <= b0.len());
        assert(4 + b0.len() <= s.len());
        assert(skip_fields(s) == Some(4 + b0.len() + (fields_bytes(fs.skip(1)).len() + 1 as int)))
            by {
            reveal_with_fuel(skip_fields, 2);
        }
        assert(fields_bytes(fs) =~= (te + b0) + fields_bytes(fs.skip(1)));
    }
}

/// Group round trip at the skip level: a group value built from a run of
/// whole fields, with or without the leading marker byte, skips as one
/// whole value of the group kind, whatever bytes follow.
pub proof fn lemma_group_skips_whole(
    marker: bool,
    fs: Seq<(Seq<u8>, TdfType, Seq<u8>)>,
    rest: Seq<u8>,
)
    requires
        fields_whole(fs),
    ensures
        skip_value(TdfType::Group, group_enc(marker, fields_bytes(fs)) + rest) == Some(
            group_enc(marker, fields_bytes(fs)).len() as int,
        ),
{
    reveal(skip_value);
    let body = fields_bytes(fs);
    let s = group_enc(marker, body) + rest;
    if marker {
        assert(s[0] == 2);
        assert(s.skip(1) =~= body + (seq![0u8] + rest));
        lemma_fields_skip(fs, rest);
        assert(skip_fields(s) == Some(1 + (body.len() + 1 as int)));
    } else {
        assert(s =~= body + (seq![0u8] + rest));
        lemma_fields_skip(fs, rest);
    }
}

/// The bytes of an encoded VarInt are one whole skippable value.
pub proof fn lemma_varint_skips_whole(v: u64, rest: Seq<u8>)
    ensures
        skip_value(TdfType::VarInt, crate::varint::varint_enc(v) + rest) == Some(
            crate::varint::varint_enc(v).len() as int,
        ),
{
    reveal(skip_value);
    crate::varint::lemma_varint_round_trip(v, rest);
}

/// The bytes of an encoded string are one whole skippable value.
pub proof fn lemma_string_skips_whole(cs: Seq<char>, rest: Seq<u8>)
    requires
        vstd::utf8::encode_utf8(cs).len() + 1 <= usize::MAX,
    ensures
        skip_value(TdfType::String, crate::writer::str_enc(cs) + rest) == Some(
            crate::writer::str_enc(cs).len() as int,
        ),
{
    reveal(skip_value);
    let payload = crate::writer::str_payload(cs);
    let plen = payload.len() as u64;
    let s = crate::writer::str_enc(cs) + rest;
    assert(s =~= crate::varint::varint_enc(plen) + (payload + rest));
    crate::varint::lemma_varint_round_trip(plen, payload + rest);
    crate::types::lemma_trunc_usize_small(payload.len());
}

} // verus!
