//! Encoding of rendered frames to a video.

use vstd::prelude::*;
use vstd::string::*;

use crate::text::{
    decimal, lemma_decimal_digits, lemma_decimal_tells_number, push_count, push_decimal, text_of,
};

verus! {

/// The arguments for the encoder, without the output path: raw frames of 24
/// bits per pixel come in on standard input and go out as H.264.
pub open spec fn encoder_texts(width: u32, height: u32, fps: usize) -> Seq<Seq<char>> {
    seq![
        "-f"@,
        "rawvideo"@,
        "-pixel_format"@,
        "rgb24"@,
        "-video_size"@,
        decimal(width as nat) + "x"@ + decimal(height as nat),
        "-framerate"@,
        decimal(fps as nat),
        "-i"@,
        "-"@,
        "-c:v"@,
        "libx264"@,
        "-pix_fmt"@,
        "yuv420p"@,
        "-preset"@,
        "medium"@,
        "-loglevel"@,
        "error"@,
        "-nostats"@,
        "-y"@,
    ]
}

/// The characters of several texts.
pub open spec fn texts(strings: Seq<String>) -> Seq<Seq<char>> {
    Seq::new(strings.len(), |i: int| strings[i]@)
}

/// The arguments for the encoder, without the output path.
pub fn encoder_args(width: u32, height: u32, fps: usize) -> (args: Vec<String>)
    ensures
        texts(args@) == encoder_texts(width, height, fps),
        args@.len() == 20,
        args@[0]@ == "-f"@ && args@[1]@ == "rawvideo"@,
        args@[2]@ == "-pixel_format"@ && args@[3]@ == "rgb24"@,
        args@[4]@ == "-video_size"@ && args@[5]@ == decimal(width as nat) + "x"@ + decimal(
            height as nat,
        ),
        args@[6]@ == "-framerate"@ && args@[7]@ == decimal(fps as nat),
        args@[8]@ == "-i"@ && args@[9]@ == "-"@,
        args@[10]@ == "-c:v"@ && args@[11]@ == "libx264"@,
        args@[12]@ == "-pix_fmt"@ && args@[13]@ == "yuv420p"@,
        args@[14]@ == "-preset"@ && args@[15]@ == "medium"@,
        args@[16]@ == "-loglevel"@ && args@[17]@ == "error"@,
        args@[18]@ == "-nostats"@ && args@[19]@ == "-y"@,
{
    let mut size = String::new();
    push_decimal(&mut size, width as u64);
    size.append("x");
    push_decimal(&mut size, height as u64);
    let mut rate = String::new();
    push_count(&mut rate, fps);
    let mut args: Vec<String> = Vec::new();
    args.push(text_of("-f"));
    args.push(text_of("rawvideo"));
    args.push(text_of("-pixel_format"));
    args.push(text_of("rgb24"));
    args.push(text_of("-video_size"));
    args.push(size);
    args.push(text_of("-framerate"));
    args.push(rate);
    args.push(text_of("-i"));
    args.push(text_of("-"));
    args.push(text_of("-c:v"));
    args.push(text_of("libx264"));
    args.push(text_of("-pix_fmt"));
    args.push(text_of("yuv420p"));
    args.push(text_of("-preset"));
    args.push(text_of("medium"));
    args.push(text_of("-loglevel"));
    args.push(text_of("error"));
    args.push(text_of("-nostats"));
    args.push(text_of("-y"));
    proof {
        let expected = encoder_texts(width, height, fps);
        assert(size@ =~= decimal(width as nat) + "x"@ + decimal(height as nat));
        assert(rate@ =~= decimal(fps as nat));
        assert(texts(args@) =~= expected);
    }
    args
}

/// Packs a frame of four values per pixel into three bytes per pixel, and drops
/// the fourth value.
pub fn pack_rgb<T: Copy, F: Fn(T) -> u8>(values: &[T], width: u32, height: u32, quantize: F) -> (rgb:
    Vec<u8>)
    requires
        width * height * 3 <= u32::MAX,
        width * height * 4 <= values@.len(),
        forall|value: T| call_requires(quantize, (value,)),
    ensures
        rgb@.len() == width * height * 3,
        forall|px: int, c: int|
            0 <= px < width * height && 0 <= c < 3 ==> call_ensures(
                quantize,
                (values@[px * 4 + c],),
                #[trigger] rgb@[px * 3 + c],
            ),
{
    let ghost count = width * height;
    assert(0 <= count) by (nonlinear_arith)
        requires
            count == width * height,
    ;
    let pixels: usize = (width * height) as usize;
    let mut rgb: Vec<u8> = Vec::new();
    let mut px: usize = 0;
    while px < pixels
        invariant
            px <= pixels,
            pixels == count,
            count * 4 <= values@.len(),
            values@.len() == values.len(),
            rgb@.len() == px * 3,
            forall|value: T| call_requires(quantize, (value,)),
            forall|p: int, c: int|
                0 <= p < px && 0 <= c < 3 ==> call_ensures(
                    quantize,
                    (values@[p * 4 + c],),
                    #[trigger] rgb@[p * 3 + c],
                ),
        decreases pixels - px,
    {
        let ghost before = rgb@;
        let r = quantize(values[px * 4]);
        let g = quantize(values[px * 4 + 1]);
        let b = quantize(values[px * 4 + 2]);
        rgb.push(r);
        rgb.push(g);
        rgb.push(b);
        proof {
            assert forall|p: int, c: int| 0 <= p < px + 1 && 0 <= c < 3 implies call_ensures(
                quantize,
                (values@[p * 4 + c],),
                #[trigger] rgb@[p * 3 + c],
            ) by {
                if p < px {
                    assert(rgb@[p * 3 + c] == before[p * 3 + c]);
                }
            }
        }
        px = px + 1;
    }
    rgb
}

/// The arguments tell the size and the frame rate: two lists of arguments are
/// the same only for the same width, height and frame rate.
pub proof fn law_arguments_tell_size_and_rate(
    width: u32,
    height: u32,
    fps: usize,
    other_width: u32,
    other_height: u32,
    other_fps: usize,
)
    requires
        encoder_texts(width, height, fps) == encoder_texts(other_width, other_height, other_fps),
    ensures
        width == other_width,
        height == other_height,
        fps == other_fps,
{
    let a = encoder_texts(width, height, fps);
    let b = encoder_texts(other_width, other_height, other_fps);
    assert(a[5] == b[5] && a[7] == b[7]);
    lemma_decimal_tells_number(fps as nat, other_fps as nat);
    lemma_size_tells_sides(width as nat, height as nat, other_width as nat, other_height as nat);
}

proof fn lemma_size_tells_sides(w: nat, h: nat, v: nat, g: nat)
    requires
        decimal(w) + "x"@ + decimal(h) == decimal(v) + "x"@ + decimal(g),
    ensures
        w == v,
        h == g,
{
    reveal_strlit("x");
    lemma_decimal_digits(w);
    lemma_decimal_digits(h);
    lemma_decimal_digits(v);
    lemma_decimal_digits(g);
    let text = decimal(w) + "x"@ + decimal(h);
    let n = decimal(w).len() as int;
    let m = decimal(v).len() as int;
    assert(text[n] == 'x');
    assert(text[m] == 'x');
    if n < m {
        assert(text[n] == decimal(v)[n]);
    } else if m < n {
        assert(text[m] == decimal(w)[m]);
    }
    assert(text.subrange(0, n) =~= decimal(w));
    assert(text.subrange(0, n) =~= decimal(v));
    assert(text.subrange(n + 1, text.len() as int) =~= decimal(h));
    assert(text.subrange(n + 1, text.len() as int) =~= decimal(g));
    lemma_decimal_tells_number(w, v);
    lemma_decimal_tells_number(h, g);
}

/// The values of the encoder's options, by their names: what the frame rate is
/// follows the option for it, and so for the size.
pub proof fn law_options_have_their_values(width: u32, height: u32, fps: usize, i: int)
    requires
        0 <= i < encoder_texts(width, height, fps).len() - 1,
    ensures
        ({
            let args = encoder_texts(width, height, fps);
            &&& args[i] == "-framerate"@ && i % 2 == 0 ==> crate::text::digits_value(args[i + 1])
                == fps
            &&& args[i] == "-video_size"@ && i % 2 == 0 ==> args[i + 1] == decimal(width as nat)
                + "x"@ + decimal(height as nat)
        }),
{
    reveal_strlit("-f");
    reveal_strlit("-pixel_format");
    reveal_strlit("-video_size");
    reveal_strlit("-framerate");
    reveal_strlit("-i");
    reveal_strlit("-c:v");
    reveal_strlit("-pix_fmt");
    reveal_strlit("-preset");
    reveal_strlit("-loglevel");
    reveal_strlit("-nostats");
    crate::text::law_decimal_reads_back(fps as nat);
    assert("-framerate"@.len() == 10);
    assert("-framerate"@[1] == 'f');
    assert("-video_size"@.len() == 11);
    assert("-loglevel"@.len() == 9);
    assert("-nostats"@.len() == 8);
    assert("-pixel_format"@.len() == 13);
}

} // verus!
