//! A `.npy` file tells what was written to it: the shape and the numbers.

use vstd::prelude::*;
use vstd::string::*;
use vstd::utf8::*;

use crate::bits::Single;
use crate::dino::npy::{
    dictionary, header, joined, law_npy_round_trip, lemma_payload_len, lemma_plain_dictionary,
    npy_file, padding, payload, preamble, shape_text,
};
use crate::text::{ascii, decimal, lemma_decimal_digits, lemma_decimal_tells_number};

verus! {

/// What is between the brackets of a shape.
spec fn inner(shape: Seq<usize>) -> Seq<char> {
    if shape.len() == 1 {
        joined(shape).push(',')
    } else {
        joined(shape)
    }
}

/// What comes before the dimensions.
spec fn opening() -> Seq<char> {
    "{'descr': '<f4', 'fortran_order': False, 'shape': "@ + "("@
}

/// Joined dimensions hold digits, commas and spaces, and end in a digit.
proof fn lemma_joined_chars(shape: Seq<usize>)
    ensures
        forall|i: int| 0 <= i < joined(shape).len() ==> #[trigger] joined(shape)[i] != ')',
        shape.len() > 0 ==> joined(shape).len() > 0 && '0' <= joined(shape).last()
            && joined(shape).last() <= '9',
    decreases shape.len(),
{
    reveal_strlit(", ");
    if shape.len() > 0 {
        lemma_decimal_digits(shape.last() as nat);
        if shape.len() > 1 {
            lemma_joined_chars(shape.drop_last());
        } else {
            assert(joined(shape) == decimal(shape[0] as nat));
        }
    }
}

/// Where the text for the last dimension starts.
proof fn lemma_joined_split(shape: Seq<usize>)
    requires
        shape.len() >= 2,
    ensures
        ({
            let text = joined(shape);
            let at = joined(shape.drop_last()).len() as int + 1;
            &&& 0 <= at < text.len()
            &&& text[at] == ' '
            &&& forall|i: int| at < i < text.len() ==> #[trigger] text[i] != ' '
            &&& text.subrange(at + 1, text.len() as int) == decimal(shape.last() as nat)
            &&& text.subrange(0, at - 1) == joined(shape.drop_last())
        }),
{
    reveal_strlit(", ");
    lemma_decimal_digits(shape.last() as nat);
    let text = joined(shape);
    let before = joined(shape.drop_last());
    let last = decimal(shape.last() as nat);
    let at = before.len() as int + 1;
    assert(text == before + ", "@ + last);
    assert(text[at] == ", "@[1]);
    assert forall|i: int| at < i < text.len() implies #[trigger] text[i] != ' ' by {
        assert(text[i] == last[i - at - 1]);
    }
    assert(text.subrange(at + 1, text.len() as int) =~= last);
    assert(text.subrange(0, at - 1) =~= before);
}

/// Joined dimensions tell the dimensions.
proof fn lemma_joined_tells_shape(a: Seq<usize>, b: Seq<usize>)
    requires
        a.len() >= 1,
        b.len() >= 1,
        joined(a) == joined(b),
    ensures
        a == b,
    decreases a.len(),
{
    let text = joined(a);
    if a.len() == 1 {
        lemma_decimal_digits(a[0] as nat);
        if b.len() > 1 {
            lemma_joined_split(b);
        } else {
            lemma_decimal_tells_number(a[0] as nat, b[0] as nat);
            assert(a =~= b);
        }
    } else {
        lemma_joined_split(a);
        if b.len() == 1 {
            lemma_decimal_digits(b[0] as nat);
        } else {
            lemma_joined_split(b);
            let at_a = joined(a.drop_last()).len() as int + 1;
            let at_b = joined(b.drop_last()).len() as int + 1;
            assert(at_a == at_b);
            lemma_decimal_tells_number(a.last() as nat, b.last() as nat);
            lemma_joined_tells_shape(a.drop_last(), b.drop_last());
            assert(a =~= a.drop_last().push(a.last()));
            assert(b =~= b.drop_last().push(b.last()));
        }
    }
}

/// How a header is put together, around what is between the brackets.
proof fn lemma_header_parts(shape: Seq<usize>)
    ensures
        ({
            let text = header(shape);
            let from = opening().len() as int;
            let to = from + inner(shape).len();
            &&& to < text.len()
            &&& text.subrange(from, to) == inner(shape)
            &&& text[to] == ')'
            &&& forall|i: int| from <= i < to ==> #[trigger] text[i] != ')'
        }),
{
    reveal_strlit(",)");
    reveal_strlit(")");
    reveal_strlit("(");
    lemma_joined_chars(shape);
    let text = header(shape);
    let from = opening().len() as int;
    let part = inner(shape);
    let to = from + part.len();
    let rest = ")"@ + ", }"@ + Seq::new(padding(shape) as nat, |i: int| ' ') + seq!['\n'];
    assert(shape_text(shape) =~= "("@ + part + ")"@);
    assert(text =~= opening() + part + rest);
    assert(rest[0] == ')');
    assert(text.subrange(from, to) =~= part);
    assert forall|i: int| from <= i < to implies #[trigger] text[i] != ')' by {
        assert(text[i] == part[i - from]);
        if shape.len() == 1 && i - from == joined(shape).len() {
        } else {
            assert(part[i - from] == joined(shape)[i - from]);
        }
    }
}

/// The header tells the shape: no two shapes have the same header.
pub proof fn law_header_tells_shape(a: Seq<usize>, b: Seq<usize>)
    requires
        header(a) == header(b),
    ensures
        a == b,
{
    lemma_header_parts(a);
    lemma_header_parts(b);
    let from = opening().len() as int;
    let text = header(a);
    let to_a = from + inner(a).len();
    let to_b = from + inner(b).len();
    if to_a < to_b {
        assert(text[to_a] != ')');
    } else if to_b < to_a {
        assert(text[to_b] != ')');
    }
    assert(inner(a) == inner(b));
    lemma_joined_chars(a);
    lemma_joined_chars(b);
    if a.len() == 0 || b.len() == 0 {
        assert(a =~= b);
    } else {
        if a.len() == 1 {
            assert(inner(a).last() == ',');
            assert(inner(a).drop_last() =~= joined(a));
        }
        if b.len() == 1 {
            assert(inner(b).last() == ',');
            assert(inner(b).drop_last() =~= joined(b));
        }
        lemma_joined_tells_shape(a, b);
    }
}

/// The file tells what was written: two files that are the same hold the same
/// numbers in the same shape.
pub proof fn law_npy_file_tells_contents(
    data_a: Seq<Single>,
    shape_a: Seq<usize>,
    data_b: Seq<Single>,
    shape_b: Seq<usize>,
)
    requires
        header(shape_a).len() <= 0xffff,
        header(shape_b).len() <= 0xffff,
        npy_file(data_a, shape_a) == npy_file(data_b, shape_b),
    ensures
        shape_a == shape_b,
        data_a == data_b,
{
    let file = npy_file(data_a, shape_a);
    let head_a = header(shape_a);
    let head_b = header(shape_b);
    lemma_file_header(data_a, shape_a);
    lemma_file_header(data_b, shape_b);
    assert(head_a.len() == head_b.len());
    assert(head_a =~= head_b) by {
        lemma_plain_dictionary(shape_a);
        lemma_plain_dictionary(shape_b);
        assert forall|i: int| 0 <= i < head_a.len() implies head_a[i] == head_b[i] by {
            assert(ascii(head_a)[i] == file.subrange(10, 10 + head_a.len() as int)[i]);
            assert(ascii(head_b)[i] == file.subrange(10, 10 + head_b.len() as int)[i]);
            assert(head_a[i] as u8 == head_b[i] as u8);
            lemma_plain_header(shape_a, i);
            lemma_plain_header(shape_b, i);
        }
    }
    law_header_tells_shape(shape_a, shape_b);
    lemma_payload_len(data_a);
    lemma_payload_len(data_b);
    assert(data_a.len() == data_b.len());
    assert forall|i: int| 0 <= i < data_a.len() implies data_a[i] == data_b[i] by {
        law_npy_round_trip(data_a, shape_a, i);
        law_npy_round_trip(data_b, shape_b, i);
    }
    assert(data_a =~= data_b);
}

/// Every character of a header is ASCII.
proof fn lemma_plain_header(shape: Seq<usize>, i: int)
    requires
        0 <= i < header(shape).len(),
    ensures
        (header(shape)[i] as int) < 128,
{
    lemma_plain_dictionary(shape);
    let n = dictionary(shape).len() as int;
    if i < n {
        assert(header(shape)[i] == dictionary(shape)[i]);
    } else if i < n + padding(shape) {
        assert(header(shape)[i] == ' ');
    } else {
        assert(header(shape)[i] == '\n');
    }
}

/// Where the header is in a file.
proof fn lemma_file_header(data: Seq<Single>, shape: Seq<usize>)
    requires
        header(shape).len() <= 0xffff,
    ensures
        ({
            let file = npy_file(data, shape);
            let n = header(shape).len() as int;
            &&& file.len() == 10 + n + payload(data).len()
            &&& file[8] + file[9] * 0x100 == n
            &&& file.subrange(10, 10 + n) == ascii(header(shape))
        }),
{
    let file = npy_file(data, shape);
    let n = header(shape).len() as int;
    assert(file[8] == preamble(shape)[8]);
    assert(file[9] == preamble(shape)[9]);
    assert(file.subrange(10, 10 + n) =~= ascii(header(shape)));
}

} // verus!
