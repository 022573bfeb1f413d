//! Diagnostic rendering of a TDF payload: one line per tagged field with
//! its label and kind. Built on the total skip path, so it cannot fail on
//! malformed input other than by stopping; it then annotates how many
//! bytes were left unread and why.

use vstd::prelude::*;
use vstd::utf8::encode_utf8;
use crate::error::{DecodeError, DecodeResult};
use crate::lookup::skip_value;
use crate::reader::{tag_dec, TdfReader};
use crate::tag::TdfType;

verus! {

/// The ASCII decimal digits of `n`, most significant first.
pub open spec fn decimal_digits(n: nat) -> Seq<u8>
    decreases n,
{
    if n < 10 {
        seq![(n + 0x30) as u8]
    } else {
        decimal_digits(n / 10) + seq![(n % 10 + 0x30) as u8]
    }
}

/// Appends the decimal rendering of `n`.
pub fn push_decimal(out: &mut Vec<u8>, n: usize)
    ensures
        final(out)@ == old(out)@ + decimal_digits(n as nat),
    decreases n,
{
    if n < 10 {
        out.push((n + 0x30) as u8);
        assert(out@ =~= old(out)@ + decimal_digits(n as nat));
    } else {
        push_decimal(out, n / 10);
        out.push(((n % 10) + 0x30) as u8);
        assert(out@ =~= old(out)@ + decimal_digits(n as nat));
    }
}

/// Appends all of the slice's bytes.
fn push_bytes(out: &mut Vec<u8>, s: &[u8])
    ensures
        final(out)@ == old(out)@ + s@,
{
    let mut i: usize = 0;
    while i < s.len()
        invariant
            i <= s@.len(),
            out@ == old(out)@ + s@.take(i as int),
        decreases s@.len() - i,
    {
        out.push(s[i]);
        i = i + 1;
        assert(old(out)@ + s@.take(i as int) =~= out@);
    }
    assert(old(out)@ + s@.take(s@.len() as int) =~= old(out)@ + s@);
}

/// The characters naming a kind in the dump.
pub open spec fn kind_chars(ty: TdfType) -> Seq<char> {
    match ty {
        TdfType::VarInt => "VarInt"@,
        TdfType::String => "String"@,
        TdfType::Blob => "Blob"@,
        TdfType::Group => "Group"@,
        TdfType::List => "List"@,
        TdfType::Mapping => "Map"@,
        TdfType::Union => "Union"@,
        TdfType::VarIntList => "VarIntList"@,
        TdfType::Pair => "Pair"@,
        TdfType::Triple => "Triple"@,
        TdfType::Float => "Float"@,
    }
}

/// The display name of a kind.
fn kind_name(ty: TdfType) -> (r: &'static str)
    ensures
        r@ == kind_chars(ty),
{
    match ty {
        TdfType::VarInt => "VarInt",
        TdfType::String => "String",
        TdfType::Blob => "Blob",
        TdfType::Group => "Group",
        TdfType::List => "List",
        TdfType::Mapping => "Map",
        TdfType::Union => "Union",
        TdfType::VarIntList => "VarIntList",
        TdfType::Pair => "Pair",
        TdfType::Triple => "Triple",
        TdfType::Float => "Float",
    }
}

/// The characters naming an error's cause in the dump's annotation.
pub open spec fn cause_chars(e: DecodeError) -> Seq<char> {
    match e {
        DecodeError::MissingTag { .. } => "missing tag"@,
        DecodeError::InvalidTagType { .. } => "wrong tag kind"@,
        DecodeError::InvalidType { .. } => "wrong kind"@,
        DecodeError::UnknownType { .. } => "unknown kind"@,
        DecodeError::UnexpectedEof { .. } => "unexpected end of buffer"@,
        DecodeError::Other(..) => "other"@,
    }
}

/// The display name of an error's cause.
pub fn cause_name(e: &DecodeError) -> (r: &'static str)
    ensures
        r@ == cause_chars(*e),
{
    match e {
        DecodeError::MissingTag { .. } => "missing tag",
        DecodeError::InvalidTagType { .. } => "wrong tag kind",
        DecodeError::InvalidType { .. } => "wrong kind",
        DecodeError::UnknownType { .. } => "unknown kind",
        DecodeError::UnexpectedEof { .. } => "unexpected end of buffer",
        DecodeError::Other(..) => "other",
    }
}

/// Whether every top-level field of `s` is whole: a readable tag and a
/// value the skip path can pass over, down to the end of the bytes.
pub open spec fn fields_ok(s: Seq<u8>) -> bool
    decreases s.len(),
{
    if s.len() == 0 {
        true
    } else {
        match tag_dec(s) {
            None => false,
            Some((label, ty)) => match skip_value(ty, s.skip(4)) {
                None => false,
                Some(c) => {
                    if c < 1 || 4 + c > s.len() {
                        false
                    } else {
                        fields_ok(s.skip(4 + c))
                    }
                },
            },
        }
    }
}

/// The dump of the fields of `s`: for each field its label, a separating
/// colon, its kind's name and a line break. Meaningful when the fields
/// are whole.
pub open spec fn render_fields(s: Seq<u8>) -> Seq<u8>
    decreases s.len(),
{
    if s.len() == 0 {
        Seq::<u8>::empty()
    } else {
        match tag_dec(s) {
            None => Seq::<u8>::empty(),
            Some((label, ty)) => match skip_value(ty, s.skip(4)) {
                None => Seq::<u8>::empty(),
                Some(c) => {
                    if c < 1 || 4 + c > s.len() {
                        Seq::<u8>::empty()
                    } else {
                        label + seq![0x3Au8, 0x20u8] + encode_utf8(kind_chars(ty)) + seq![0x0Au8]
                            + render_fields(s.skip(4 + c))
                    }
                },
            },
        }
    }
}

/// The note a stopped dump ends with: the unread byte count and the cause.
pub open spec fn note_of(remaining: nat, e: DecodeError) -> Seq<u8> {
    encode_utf8("remaining: "@) + decimal_digits(remaining) + encode_utf8(" bytes, cause: "@)
        + encode_utf8(cause_chars(e)) + seq![0x0Au8]
}

impl<'a> TdfReader<'a> {
    /// Renders the unread payload for logs: each top-level field's label
    /// and kind on a line of its own. The dump succeeds exactly when every
    /// field is whole, and then reads everything and appends exactly the
    /// rendering; on the first malformed field it stops, appends the note
    /// naming the unread byte count and the cause, and hands the cause
    /// back. What was already rendered stays in the output.
    pub fn stringify(&mut self, out: &mut Vec<u8>) -> (r: DecodeResult<()>)
        requires
            old(self).wf(),
        ensures
            final(self).wf(),
            final(self).buffer == old(self).buffer,
            final(self).cursor >= old(self).cursor,
            final(out)@.len() >= old(out)@.len(),
            final(out)@.take(old(out)@.len() as int) == old(out)@,
            r is Ok <==> fields_ok(old(self).rem()),
            r is Ok ==> final(self).rem().len() == 0 && final(out)@ == old(out)@ + render_fields(
                old(self).rem(),
            ),
            r matches Err(e) ==> {
                let note = note_of(final(self).rem().len() as nat, e);
                &&& final(out)@.len() >= note.len()
                &&& final(out)@.skip(final(out)@.len() - note.len()) == note
            },
    {
        let ghost base = out@;
        while self.len() > 0
            invariant
                self.wf(),
                self.buffer == old(self).buffer,
                self.cursor >= old(self).cursor,
                base == old(out)@,
                out@.len() >= base.len(),
                out@.take(base.len() as int) == base,
                fields_ok(old(self).rem()) <==> fields_ok(self.rem()),
                fields_ok(old(self).rem()) ==> out@.skip(base.len() as int) + render_fields(
                    self.rem(),
                ) == render_fields(old(self).rem()),
            decreases self.buffer@.len() - self.cursor,
        {
            let ghost cur = *self;
            let ghost out_pre = out@;
            let tag = match self.read_tag() {
                Ok(t) => t,
                Err(e) => {
                    annotate_rest(out, self.len(), &e);
                    proof {
                        assert(out@.take(base.len() as int) =~= base);
                        assert(out@.skip(out@.len() - note_of(
                            self.rem().len() as nat,
                            e,
                        ).len()) =~= note_of(self.rem().len() as nat, e));
                    }
                    return Err(e);
                },
            };
            let ghost s4 = *self;
            proof {
                assert(s4.rem() =~= cur.rem().skip(4));
            }
            push_bytes(out, tag.0.as_slice());
            out.push(0x3A);
            out.push(0x20);
            push_bytes(out, kind_name(tag.1).as_bytes());
            out.push(0x0A);
            proof {
                assert(out@.take(base.len() as int) =~= base);
            }
            match self.skip_type(tag.1) {
                Ok(u) => {},
                Err(e) => {
                    annotate_rest(out, self.len(), &e);
                    proof {
                        assert(out@.take(base.len() as int) =~= base);
                        assert(out@.skip(out@.len() - note_of(
                            self.rem().len() as nat,
                            e,
                        ).len()) =~= note_of(self.rem().len() as nat, e));
                    }
                    return Err(e);
                },
            }
            proof {
                crate::lookup::lemma_skip_value_bounds(tag.1, s4.rem());
                let c = self.cursor - s4.cursor;
                assert(self.rem() =~= cur.rem().skip(4 + c));
                let line = tag.0@ + seq![0x3Au8, 0x20u8] + encode_utf8(kind_chars(tag.1)) + seq![
                    0x0Au8,
                ];
                assert(out@.skip(base.len() as int) =~= out_pre.skip(base.len() as int) + line);
                if fields_ok(old(self).rem()) {
                    assert(render_fields(cur.rem()) =~= line + render_fields(self.rem()));
                    assert(out@.skip(base.len() as int) + render_fields(self.rem())
                        =~= out_pre.skip(base.len() as int) + render_fields(cur.rem()));
                }
            }
        }
        proof {
            if fields_ok(old(self).rem()) {
                assert(out@ =~= base + out@.skip(base.len() as int));
                assert(out@.skip(base.len() as int) + render_fields(self.rem()) =~= out@.skip(
                    base.len() as int,
                ));
            }
        }
        Ok(())
    }
}

/// Appends the note saying how many bytes were left unrendered and why.
fn annotate_rest(out: &mut Vec<u8>, remaining: usize, e: &DecodeError)
    ensures
        final(out)@ == old(out)@ + note_of(remaining as nat, *e),
{
    let note: &str = "remaining: ";
    push_bytes(out, note.as_bytes());
    push_decimal(out, remaining);
    let mid: &str = " bytes, cause: ";
    push_bytes(out, mid.as_bytes());
    push_bytes(out, cause_name(e).as_bytes());
    out.push(0x0A);
    assert(out@ =~= old(out)@ + note_of(remaining as nat, *e));
}

} // verus!
