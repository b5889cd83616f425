//! Decode failure reporting.
//!
//! Every structural decode failure carries the byte offset at which the
//! grammar rule failed together with a bounded preview of the unconsumed
//! bytes at that offset, so that a malformed export can be debugged without
//! a full hex dump of the file.

use vstd::prelude::*;

verus! {

/// Number of unconsumed bytes captured in an error's preview.
pub const PREVIEW_LEN: usize = 8;

/// A decode failure, produced when a byte buffer does not follow the
/// animation file grammar.
#[derive(Debug, Clone, PartialEq)]
pub enum Error {
    /// The buffer ended before a required field or value array was complete.
    TruncatedInput { offset: usize, preview: Vec<u8> },
    /// A name field held bytes before its NUL terminator that are not valid
    /// UTF-8.
    InvalidUtf8 { offset: usize, preview: Vec<u8> },
    /// A record declared `frame_end < frame_start`, so no sample count can
    /// be derived from it.
    InvalidFrameRange { frame_start: u32, frame_end: u32 },
}

/// Mathematical image of [`Error`].
pub enum ErrorModel {
    TruncatedInput { offset: int, preview: Seq<u8> },
    InvalidUtf8 { offset: int, preview: Seq<u8> },
    InvalidFrameRange { frame_start: u32, frame_end: u32 },
}

impl View for Error {
    type V = ErrorModel;

    open spec fn view(&self) -> ErrorModel {
        match self {
            Error::TruncatedInput { offset, preview } => (ErrorModel::TruncatedInput {
                offset: *offset as int,
                preview: preview@,
            }),
            Error::InvalidUtf8 { offset, preview } => (ErrorModel::InvalidUtf8 {
                offset: *offset as int,
                preview: preview@,
            }),
            Error::InvalidFrameRange { frame_start, frame_end } => (ErrorModel::InvalidFrameRange {
                frame_start: *frame_start,
                frame_end: *frame_end,
            }),
        }
    }
}

/// The bytes that stood at the failure offset, empty for failures that are
/// not tied to a buffer position.
pub open spec fn spec_preview_bytes(e: ErrorModel) -> Seq<u8> {
    match e {
        ErrorModel::TruncatedInput { preview, .. } => preview,
        ErrorModel::InvalidUtf8 { preview, .. } => preview,
        ErrorModel::InvalidFrameRange { .. } => Seq::empty(),
    }
}

/// The lowercase hexadecimal digit for a value below sixteen.
pub open spec fn spec_hex_char(n: int) -> char {
    if n == 0 {
        '0'
    } else if n == 1 {
        '1'
    } else if n == 2 {
        '2'
    } else if n == 3 {
        '3'
    } else if n == 4 {
        '4'
    } else if n == 5 {
        '5'
    } else if n == 6 {
        '6'
    } else if n == 7 {
        '7'
    } else if n == 8 {
        '8'
    } else if n == 9 {
        '9'
    } else if n == 10 {
        'a'
    } else if n == 11 {
        'b'
    } else if n == 12 {
        'c'
    } else if n == 13 {
        'd'
    } else if n == 14 {
        'e'
    } else {
        'f'
    }
}

/// Two lowercase hexadecimal digits per byte, in byte order.
pub open spec fn spec_hex_of_bytes(b: Seq<u8>) -> Seq<char>
    decreases b.len(),
{
    if b.len() == 0 {
        Seq::empty()
    } else {
        seq![
            spec_hex_char(b[0] as int / 16),
            spec_hex_char(b[0] as int % 16),
        ] + spec_hex_of_bytes(b.drop_first())
    }
}

proof fn lemma_hex_of_bytes_push(b: Seq<u8>, x: u8)
    ensures
        spec_hex_of_bytes(b.push(x)) == spec_hex_of_bytes(b) + seq![
            spec_hex_char(x as int / 16),
            spec_hex_char(x as int % 16),
        ],
    decreases b.len(),
{
    if b.len() == 0 {
        assert(b.push(x).drop_first() =~= b);
        assert(spec_hex_of_bytes(b.push(x)) =~= spec_hex_of_bytes(b) + seq![
            spec_hex_char(x as int / 16),
            spec_hex_char(x as int % 16),
        ]);
    } else {
        assert(b.push(x).drop_first() =~= b.drop_first().push(x));
        lemma_hex_of_bytes_push(b.drop_first(), x);
        assert(spec_hex_of_bytes(b.push(x)) =~= spec_hex_of_bytes(b) + seq![
            spec_hex_char(x as int / 16),
            spec_hex_char(x as int % 16),
        ]);
    }
}

fn hex_char_str(n: u8) -> (r: &'static str)
    requires
        n < 16,
    ensures
        r@ == seq![spec_hex_char(n as int)],
{
    if n == 0 {
        proof {
            reveal_strlit("0");
            assert("0"@ =~= seq![spec_hex_char(0)]);
        }
        "0"
    } else if n == 1 {
        proof {
            reveal_strlit("1");
            assert("1"@ =~= seq![spec_hex_char(1)]);
        }
        "1"
    } else if n == 2 {
        proof {
            reveal_strlit("2");
            assert("2"@ =~= seq![spec_hex_char(2)]);
        }
        "2"
    } else if n == 3 {
        proof {
            reveal_strlit("3");
            assert("3"@ =~= seq![spec_hex_char(3)]);
        }
        "3"
    } else if n == 4 {
        proof {
            reveal_strlit("4");
            assert("4"@ =~= seq![spec_hex_char(4)]);
        }
        "4"
    } else if n == 5 {
        proof {
            reveal_strlit("5");
            assert("5"@ =~= seq![spec_hex_char(5)]);
        }
        "5"
    } else if n == 6 {
        proof {
            reveal_strlit("6");
            assert("6"@ =~= seq![spec_hex_char(6)]);
        }
        "6"
    } else if n == 7 {
        proof {
            reveal_strlit("7");
            assert("7"@ =~= seq![spec_hex_char(7)]);
        }
        "7"
    } else if n == 8 {
        proof {
            reveal_strlit("8");
            assert("8"@ =~= seq![spec_hex_char(8)]);
        }
        "8"
    } else if n == 9 {
        proof {
            reveal_strlit("9");
            assert("9"@ =~= seq![spec_hex_char(9)]);
        }
        "9"
    } else if n == 10 {
        proof {
            reveal_strlit("a");
            assert("a"@ =~= seq![spec_hex_char(10)]);
        }
        "a"
    } else if n == 11 {
        proof {
            reveal_strlit("b");
            assert("b"@ =~= seq![spec_hex_char(11)]);
        }
        "b"
    } else if n == 12 {
        proof {
            reveal_strlit("c");
            assert("c"@ =~= seq![spec_hex_char(12)]);
        }
        "c"
    } else if n == 13 {
        proof {
            reveal_strlit("d");
            assert("d"@ =~= seq![spec_hex_char(13)]);
        }
        "d"
    } else if n == 14 {
        proof {
            reveal_strlit("e");
            assert("e"@ =~= seq![spec_hex_char(14)]);
        }
        "e"
    } else {
        proof {
            reveal_strlit("f");
            assert("f"@ =~= seq![spec_hex_char(15)]);
        }
        "f"
    }
}

fn hex_of_bytes(b: &Vec<u8>) -> (r: String)
    ensures
        r@ == spec_hex_of_bytes(b@),
{
    let mut r = String::new();
    let mut i: usize = 0;
    while i < b.len()
        invariant
            i <= b@.len(),
            r@ == spec_hex_of_bytes(b@.take(i as int)),
        decreases b@.len() - i,
    {
        let hi: u8 = b[i] / 16;
        let lo: u8 = b[i] % 16;
        r.append(hex_char_str(hi));
        r.append(hex_char_str(lo));
        proof {
            lemma_hex_of_bytes_push(b@.take(i as int), b@[i as int]);
            assert(b@.take(i as int).push(b@[i as int]) =~= b@.take(i + 1));
        }
        i = i + 1;
    }
    proof {
        assert(b@.take(i as int) =~= b@);
    }
    r
}

impl Error {
    /// The preview bytes rendered as lowercase hexadecimal, two digits per
    /// byte; empty for a failure that carries no preview.
    pub fn hex_preview(&self) -> (r: String)
        ensures
            r@ == spec_hex_of_bytes(spec_preview_bytes(self@)),
    {
        match self {
            Error::TruncatedInput { preview, .. } => hex_of_bytes(preview),
            Error::InvalidUtf8 { preview, .. } => hex_of_bytes(preview),
            Error::InvalidFrameRange { .. } => String::new(),
        }
    }
}

} // verus!
