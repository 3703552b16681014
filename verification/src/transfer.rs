use vstd::prelude::*;

verus! {

/// The transfer reads the response stream in chunks of this many bytes.
pub const CHUNK_SIZE: usize = 8192;

/// One read from the response stream, as the transfer sees it: the number of
/// bytes the read yielded, or a read failure.
#[derive(Clone, Copy, Debug, PartialEq, Eq, Structural)]
pub enum ChunkRead {
    Data(usize),
    ReadError,
}

/// What the transfer does after a read: write the first `len` bytes of the
/// buffer to the sink and report the running count, finish because the
/// stream ended, or abort because the read failed.
#[derive(Clone, Copy, Debug, PartialEq, Eq, Structural)]
pub enum TransferStep {
    Write { len: usize },
    Finished,
    Failed,
}

/// The running state of one streamed download: how many bytes have reached
/// the sink so far.
#[derive(Clone, Copy, Debug, PartialEq, Eq, Structural)]
pub struct TransferProgress {
    pub bytes_downloaded: usize,
}

impl TransferProgress {
    /// A transfer that has not moved any bytes yet.
    pub fn new() -> (r: TransferProgress)
        ensures
            r.bytes_downloaded == 0,
    {
        TransferProgress { bytes_downloaded: 0 }
    }

    /// Decides what one read means for the transfer: a zero-length read is
    /// the normal end of the stream, a failed read aborts, and any other
    /// read is written out in full while the byte count grows by exactly the
    /// bytes read. The count after the call is what a progress reporter is
    /// shown.
    pub fn on_chunk(&mut self, read: ChunkRead) -> (step: TransferStep)
        requires
            read matches ChunkRead::Data(n) ==> n <= CHUNK_SIZE && old(self).bytes_downloaded + n
                <= usize::MAX,
        ensures
            match read {
                ChunkRead::Data(n) => if n == 0 {
                    step == TransferStep::Finished && *final(self) == *old(self)
                } else {
                    step == (TransferStep::Write { len: n }) && final(self).bytes_downloaded == old(
                        self,
                    ).bytes_downloaded + n
                },
                ChunkRead::ReadError => step == TransferStep::Failed && *final(self) == *old(self),
            },
    {
        match read {
            ChunkRead::Data(n) => {
                if n == 0 {
                    // download has finished
                    TransferStep::Finished
                } else {
                    self.bytes_downloaded = self.bytes_downloaded + n;
                    TransferStep::Write { len: n }
                }
            },
            ChunkRead::ReadError => TransferStep::Failed,
        }
    }
}

/// A digit character.
pub open spec fn is_digit(c: char) -> bool {
    '0' as int <= c as int && c as int <= '9' as int
}

/// The number the digit string writes, most significant digit first.
pub open spec fn digits_value(s: Seq<char>) -> int
    decreases s.len(),
{
    if s.len() == 0 {
        0
    } else {
        digits_value(s.drop_last()) * 10 + (s.last() as int - '0' as int)
    }
}

/// The digit part of a content-length value: everything after an optional
/// leading plus sign.
pub open spec fn content_length_digits(s: Seq<char>) -> Seq<char> {
    if s.len() > 0 && s[0] == '+' {
        s.skip(1)
    } else {
        s
    }
}

/// A well-formed content-length value: an optional plus sign, then at least
/// one digit and nothing else.
pub open spec fn content_length_well_formed(s: Seq<char>) -> bool {
    content_length_digits(s).len() > 0 && forall|i: int|
        0 <= i < content_length_digits(s).len() ==> is_digit(#[trigger] content_length_digits(s)[i])
}

/// The value a digit string writes never shrinks as digits are appended.
proof fn lemma_digits_value_prefix(s: Seq<char>, k: int)
    requires
        0 <= k <= s.len(),
        forall|i: int| 0 <= i < s.len() ==> is_digit(#[trigger] s[i]),
    ensures
        digits_value(s) >= digits_value(s.take(k)),
        digits_value(s) >= 0,
    decreases s.len(),
{
    if s.len() == 0 {
        assert(s.take(k) =~= s);
    } else {
        let d = s.drop_last();
        assert(forall|i: int| 0 <= i < d.len() ==> is_digit(#[trigger] d[i])) by {
            assert forall|i: int| 0 <= i < d.len() implies is_digit(#[trigger] d[i]) by {
                assert(d[i] == s[i]);
            }
        }
        lemma_digits_value_prefix(d, if k <= d.len() {
            k
        } else {
            d.len() as int
        });
        assert(is_digit(s.last()));
        if k <= d.len() {
            assert(s.take(k) =~= d.take(k));
        } else {
            assert(s.take(k) =~= s);
        }
    }
}

/// Reads a content-length value as the decimal number it writes: an optional
/// plus sign, then digits only; anything else, or a value over the machine
/// limit, yields nothing.
pub fn parse_content_length(value: &str) -> (r: Option<usize>)
    ensures
        match r {
            Some(n) => content_length_well_formed(value@) && n == digits_value(
                content_length_digits(value@),
            ),
            None => !content_length_well_formed(value@) || digits_value(
                content_length_digits(value@),
            ) > usize::MAX,
        },
{
    let len = value.unicode_len();
    let start: usize = if len > 0 && value.get_char(0) == '+' {
        1
    } else {
        0
    };
    let ghost digits = content_length_digits(value@);
    proof {
        assert(digits =~= value@.skip(start as int));
    }
    if start == len {
        // no digits at all
        return None;
    }
    let mut acc: usize = 0;
    let mut k: usize = start;
    while k < len
        invariant
            len == value@.len(),
            start <= k <= len,
            digits == content_length_digits(value@),
            digits == value@.skip(start as int),
            digits.len() == len - start,
            forall|i: int| 0 <= i < k - start ==> is_digit(#[trigger] digits[i]),
            acc == digits_value(digits.take(k - start)),
        decreases len - k,
    {
        let c = value.get_char(k);
        let cu = c as u32;
        if cu < '0' as u32 || cu > '9' as u32 {
            proof {
                assert(digits[k - start] == value@[k as int]);
                assert(!is_digit(content_length_digits(value@)[k - start]));
                assert(!content_length_well_formed(value@));
            }
            return None;
        }
        let d: usize = (cu as usize) - ('0' as u32 as usize);
        proof {
            assert(digits[k - start] == value@[k as int]);
            assert(digits.take(k - start + 1).drop_last() =~= digits.take(k - start));
            assert(digits.take(k - start + 1).last() == digits[k - start]);
        }
        let shifted = match acc.checked_mul(10) {
            Some(s) => s,
            None => {
                proof {
                    if content_length_well_formed(value@) {
                        assert forall|i: int| 0 <= i < digits.len() implies is_digit(
                            #[trigger] digits[i],
                        ) by {
                            assert(digits[i] == content_length_digits(value@)[i]);
                        }
                        lemma_digits_value_prefix(digits, k - start + 1);
                    }
                }
                return None;
            },
        };
        acc = match shifted.checked_add(d) {
            Some(s) => s,
            None => {
                proof {
                    if content_length_well_formed(value@) {
                        assert forall|i: int| 0 <= i < digits.len() implies is_digit(
                            #[trigger] digits[i],
                        ) by {
                            assert(digits[i] == content_length_digits(value@)[i]);
                        }
                        lemma_digits_value_prefix(digits, k - start + 1);
                    }
                }
                return None;
            },
        };
        k = k + 1;
    }
    proof {
        assert(digits.take(len - start) =~= digits);
    }
    Some(acc)
}

} // verus!
