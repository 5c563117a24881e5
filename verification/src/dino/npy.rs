//! The numpy `.npy` format, version 1.0, for C-order little-endian
//! single-precision arrays.

use vstd::prelude::*;
use vstd::string::*;
use vstd::utf8::*;

use crate::bits::{law_le_bytes_round_trip, Single};
use crate::text::{ascii, decimal, law_ascii_is_utf8, lemma_decimal_digits, push_count};

verus! {

/// The number of elements of an array with the given shape.
pub open spec fn element_count(shape: Seq<usize>) -> int
    decreases shape.len(),
{
    if shape.len() == 0 {
        1
    } else {
        element_count(shape.drop_last()) * shape.last()
    }
}

/// The dimensions in decimal, with `", "` between them.
pub open spec fn joined(shape: Seq<usize>) -> Seq<char>
    decreases shape.len(),
{
    if shape.len() == 0 {
        Seq::empty()
    } else if shape.len() == 1 {
        decimal(shape[0] as nat)
    } else {
        joined(shape.drop_last()) + ", "@ + decimal(shape.last() as nat)
    }
}

/// The shape as a Python tuple.
pub open spec fn shape_text(shape: Seq<usize>) -> Seq<char> {
    if shape.len() == 1 {
        "("@ + joined(shape) + ",)"@
    } else {
        "("@ + joined(shape) + ")"@
    }
}

/// The header's dictionary.
pub open spec fn dictionary(shape: Seq<usize>) -> Seq<char> {
    "{'descr': '<f4', 'fortran_order': False, 'shape': "@ + shape_text(shape) + ", }"@
}

/// How many spaces follow the dictionary, so that the data starts at a
/// multiple of 64 bytes: before it are eight bytes of magic, two of length, the
/// dictionary, the spaces and a line feed.
pub open spec fn padding(shape: Seq<usize>) -> int {
    (64 - (11 + dictionary(shape).len()) % 64) % 64
}

/// The whole header: dictionary, spaces and a line feed.
pub open spec fn header(shape: Seq<usize>) -> Seq<char> {
    dictionary(shape) + Seq::new(padding(shape) as nat, |i: int| ' ') + seq!['\n']
}

/// What every file of this version starts with.
pub open spec fn magic() -> Seq<u8> {
    seq![0x93u8, 0x4e, 0x55, 0x4d, 0x50, 0x59, 0x01, 0x00]
}

/// The numbers one after the other, each least significant byte first.
pub open spec fn payload(data: Seq<Single>) -> Seq<u8>
    decreases data.len(),
{
    if data.len() == 0 {
        Seq::empty()
    } else {
        payload(data.drop_last()) + data.last().le_bytes()
    }
}

/// What comes before the numbers.
pub open spec fn preamble(shape: Seq<usize>) -> Seq<u8> {
    let n = header(shape).len();
    magic() + seq![(n % 0x100) as u8, (n / 0x100) as u8] + ascii(header(shape))
}

/// The whole file.
pub open spec fn npy_file(data: Seq<Single>, shape: Seq<usize>) -> Seq<u8> {
    preamble(shape) + payload(data)
}

/// The text is ASCII.
pub open spec fn plain(text: Seq<char>) -> bool {
    is_ascii_chars(text)
}

proof fn lemma_plain_decimal(n: nat)
    ensures
        plain(decimal(n)),
{
    lemma_decimal_digits(n);
}

proof fn lemma_plain_joined(shape: Seq<usize>)
    ensures
        plain(joined(shape)),
    decreases shape.len(),
{
    reveal_strlit(", ");
    if shape.len() == 1 {
        lemma_plain_decimal(shape[0] as nat);
    } else if shape.len() > 1 {
        lemma_plain_joined(shape.drop_last());
        lemma_plain_decimal(shape.last() as nat);
    }
}

/// The header's dictionary is ASCII.
pub proof fn lemma_plain_dictionary(shape: Seq<usize>)
    ensures
        plain(dictionary(shape)),
{
    reveal_strlit("{'descr': '<f4', 'fortran_order': False, 'shape': ");
    reveal_strlit(", }");
    reveal_strlit("(");
    reveal_strlit(")");
    reveal_strlit(",)");
    lemma_plain_joined(shape);
}

/// The dimensions in decimal, with `", "` between them.
fn push_joined(text: &mut String, shape: &Vec<usize>)
    ensures
        final(text)@ == old(text)@ + joined(shape@),
{
    let mut i: usize = 0;
    while i < shape.len()
        invariant
            i <= shape@.len(),
            text@ == old(text)@ + joined(shape@.take(i as int)),
        decreases shape.len() - i,
    {
        proof {
            let taken = shape@.take(i + 1);
            assert(taken.drop_last() =~= shape@.take(i as int));
            assert(taken.last() == shape@[i as int]);
        }
        if i > 0 {
            text.append(", ");
        }
        push_count(text, shape[i]);
        i = i + 1;
        assert(text@ =~= old(text)@ + joined(shape@.take(i as int)));
    }
    assert(shape@.take(i as int) =~= shape@);
}

/// The header of a file for arrays of the given shape.
fn header_text(shape: &Vec<usize>) -> (text: String)
    requires
        header(shape@).len() <= usize::MAX,
    ensures
        text@ == header(shape@),
{
    let mut text = String::new();
    text.append("{'descr': '<f4', 'fortran_order': False, 'shape': ");
    text.append("(");
    push_joined(&mut text, shape);
    if shape.len() == 1 {
        text.append(",)");
    } else {
        text.append(")");
    }
    text.append(", }");
    assert(text@ =~= dictionary(shape@));
    proof {
        lemma_plain_dictionary(shape@);
        is_ascii_chars_encode_utf8(text@);
    }
    let over: usize = (text.as_str().len() % 64 + 11) % 64;
    let spaces: usize = if over == 0 {
        0
    } else {
        64 - over
    };
    let mut i: usize = 0;
    while i < spaces
        invariant
            i <= spaces,
            text@ == dictionary(shape@) + Seq::new(i as nat, |k: int| ' '),
        decreases spaces - i,
    {
        text.append(" ");
        i = i + 1;
        proof {
            reveal_strlit(" ");
            assert(text@ =~= dictionary(shape@) + Seq::new(i as nat, |k: int| ' '));
        }
    }
    text.append("\n");
    proof {
        reveal_strlit("\n");
    }
    text
}

/// The bytes of the `.npy` file that holds `data` as an array of shape `shape`.
pub fn write_npy_f32(data: &Vec<Single>, shape: &Vec<usize>) -> (file: Vec<u8>)
    requires
        data@.len() == element_count(shape@),
        header(shape@).len() <= 0xffff,
    ensures
        file@ == npy_file(data@, shape@),
        file@.take(8) == seq![0x93u8, 0x4e, 0x55, 0x4d, 0x50, 0x59, 0x01, 0x00],
        // The length field says where the numbers start: right after a line
        // feed, at a multiple of 64 bytes.
        file@.len() == 10 + file@[8] + 0x100 * file@[9] + 4 * data@.len(),
        (10 + file@[8] + 0x100 * file@[9]) % 64 == 0,
        file@[9 + file@[8] + 0x100 * file@[9]] == 0x0a,
        forall|i: int|
            0 <= i < data@.len() ==> ({
                let at = 10 + file@[8] + 0x100 * file@[9] + 4 * i;
                file@[at] + 0x100 * file@[at + 1] + 0x1_0000 * file@[at + 2] + 0x100_0000 * file@[at
                    + 3] == (#[trigger] data@[i]).bits
            }),
{
    let text = header_text(shape);
    proof {
        lemma_plain_dictionary(shape@);
        is_ascii_chars_encode_utf8(text@);
    }
    let bytes = text.as_str().as_bytes();
    assert(bytes@ =~= ascii(header(shape@)));
    let n: usize = bytes.len();
    let mut file: Vec<u8> = Vec::new();
    file.push(0x93);
    file.push(0x4e);
    file.push(0x55);
    file.push(0x4d);
    file.push(0x50);
    file.push(0x59);
    file.push(0x01);
    file.push(0x00);
    file.push((n % 0x100) as u8);
    file.push((n / 0x100) as u8);
    file.extend_from_slice(bytes);
    assert(file@ =~= preamble(shape@));
    let mut i: usize = 0;
    while i < data.len()
        invariant
            i <= data@.len(),
            file@ == preamble(shape@) + payload(data@.take(i as int)),
        decreases data.len() - i,
    {
        proof {
            let taken = data@.take(i + 1);
            assert(taken.drop_last() =~= data@.take(i as int));
            assert(taken.last() == data@[i as int]);
        }
        data[i].push_le_bytes(&mut file);
        i = i + 1;
        assert(file@ =~= preamble(shape@) + payload(data@.take(i as int)));
    }
    assert(data@.take(i as int) =~= data@);
    proof {
        law_header_is_aligned(shape@);
        lemma_payload_len(data@);
        assert(file@.take(8) =~= magic());
        assert(file@[8] == preamble(shape@)[8] && file@[9] == preamble(shape@)[9]);
        assert(file@[9 + header(shape@).len() as int] == preamble(shape@).last());
        assert forall|i: int| 0 <= i < data@.len() implies ({
            let at = 10 + file@[8] + 0x100 * file@[9] + 4 * i;
            file@[at] + 0x100 * file@[at + 1] + 0x1_0000 * file@[at + 2] + 0x100_0000 * file@[at
                + 3] == (#[trigger] data@[i]).bits
        }) by {
            law_npy_round_trip(data@, shape@, i);
        }
    }
    file
}

/// The numbers start at a multiple of 64 bytes, right after the line feed that
/// ends the header, and the length field says how long the header is.
pub proof fn law_header_is_aligned(shape: Seq<usize>)
    requires
        header(shape).len() <= 0xffff,
    ensures
        preamble(shape).len() % 64 == 0,
        preamble(shape).len() == 10 + header(shape).len(),
        preamble(shape).subrange(0, 8) == magic(),
        preamble(shape)[8] + preamble(shape)[9] * 0x100 == header(shape).len(),
        preamble(shape).last() == 0x0a,
{
    assert(preamble(shape).subrange(0, 8) =~= magic());
    assert(header(shape).last() == '\n');
}

proof fn lemma_payload(data: Seq<Single>, i: int)
    requires
        0 <= i < data.len(),
    ensures
        payload(data).len() == 4 * data.len(),
        payload(data).subrange(4 * i, 4 * i + 4) == data[i].le_bytes(),
    decreases data.len(),
{
    let rest = data.drop_last();
    lemma_payload_len(rest);
    if i < rest.len() {
        lemma_payload(rest, i);
        assert(payload(data).subrange(4 * i, 4 * i + 4) =~= payload(rest).subrange(
            4 * i,
            4 * i + 4,
        ));
    } else {
        assert(payload(data).subrange(4 * i, 4 * i + 4) =~= data.last().le_bytes());
    }
}

/// Each number takes four bytes.
pub proof fn lemma_payload_len(data: Seq<Single>)
    ensures
        payload(data).len() == 4 * data.len(),
    decreases data.len(),
{
    if data.len() > 0 {
        lemma_payload_len(data.drop_last());
    }
}

/// The file gives the numbers back: read from where the header ends, four
/// bytes at a time, they are the numbers that were written.
pub proof fn law_npy_round_trip(data: Seq<Single>, shape: Seq<usize>, i: int)
    requires
        0 <= i < data.len(),
    ensures
        ({
            let file = npy_file(data, shape);
            let at = 10 + header(shape).len() + 4 * i;
            &&& file.len() == 10 + header(shape).len() + 4 * data.len()
            &&& Single::of_le_bytes(file[at], file[at + 1], file[at + 2], file[at + 3]) == data[i]
        }),
{
    lemma_payload(data, i);
    law_le_bytes_round_trip(data[i]);
    let file = npy_file(data, shape);
    let start = 10 + header(shape).len() as int;
    assert(file.subrange(start + 4 * i, start + 4 * i + 4) =~= payload(data).subrange(
        4 * i,
        4 * i + 4,
    ));
    let four = file.subrange(start + 4 * i, start + 4 * i + 4);
    assert(four[0] == file[start + 4 * i]);
    assert(four[1] == file[start + 4 * i + 1]);
    assert(four[2] == file[start + 4 * i + 2]);
    assert(four[3] == file[start + 4 * i + 3]);
}

/// The number of elements is the product of the dimensions.
pub proof fn law_element_count(shape: Seq<usize>, d: usize)
    ensures
        element_count(Seq::empty()) == 1,
        element_count(shape.push(d)) == element_count(shape) * d,
{
    assert(shape.push(d).drop_last() =~= shape);
}

/// The dimensions are written in their order, in decimal, with a comma and a
/// space between two of them.
pub proof fn law_joined_dimensions(shape: Seq<usize>, d: usize)
    ensures
        joined(Seq::empty()) == Seq::<char>::empty(),
        shape.len() == 0 ==> joined(shape.push(d)) == decimal(d as nat),
        shape.len() > 0 ==> joined(shape.push(d)) == joined(shape) + ", "@ + decimal(d as nat),
{
    assert(shape.push(d).drop_last() =~= shape);
}

/// The header says that the numbers are little-endian float32 in C order, then
/// the shape as a tuple; after that come fewer than 64 spaces and a line feed.
pub proof fn law_header_text(shape: Seq<usize>)
    ensures
        ({
            let text = if shape.len() == 1 {
                "{'descr': '<f4', 'fortran_order': False, 'shape': "@ + ("("@ + joined(shape)
                    + ",)"@) + ", }"@
            } else {
                "{'descr': '<f4', 'fortran_order': False, 'shape': "@ + ("("@ + joined(shape)
                    + ")"@) + ", }"@
            };
            let n = header(shape).len() as int;
            &&& text.is_prefix_of(header(shape))
            &&& text.len() < n <= text.len() + 64
            &&& (10 + n) % 64 == 0
            &&& forall|i: int| text.len() <= i < n - 1 ==> #[trigger] header(shape)[i] == ' '
            &&& header(shape)[n - 1] == '\n'
        }),
{
    let text = dictionary(shape);
    assert(header(shape).subrange(0, text.len() as int) =~= text);
}

/// The file is its header, byte for byte behind the ten bytes before it, and
/// then the numbers.
pub proof fn law_header_in_file(data: Seq<Single>, shape: Seq<usize>)
    requires
        header(shape).len() <= 0xffff,
    ensures
        npy_file(data, shape).subrange(10, 10 + header(shape).len() as int) == encode_utf8(
            header(shape),
        ),
{
    lemma_plain_dictionary(shape);
    law_ascii_is_utf8(header(shape));
    let n = header(shape).len() as int;
    assert(npy_file(data, shape).subrange(10, 10 + n) =~= ascii(header(shape)));
}

} // verus!
