//! Which images of a dataset are used, at which size, and in which layout.

use vstd::prelude::*;
use vstd::string::*;
use vstd::utf8::*;

use crate::names::{
    chosen, extension_is, in_name_order, law_chosen_names, law_extension_in_any_case, sort_names,
    views, PathName,
};

verus! {

/// What is known of an entry of a directory.
#[derive(Debug)]
pub struct DirEntry {
    pub name: PathName,
    pub is_file: bool,
}

/// The names of directory entries.
pub open spec fn entry_names(entries: Seq<DirEntry>) -> Seq<Seq<u8>> {
    Seq::new(entries.len(), |i: int| entries[i].name@)
}

/// An image: a file with one of the known extensions, in any case.
pub open spec fn is_image(entry: DirEntry) -> bool {
    entry.is_file && (extension_is(entry.name@, "jpg"@) || extension_is(entry.name@, "jpeg"@)
        || extension_is(entry.name@, "png"@))
}

/// The names of the images among the entries.
pub open spec fn image_names(entries: Seq<DirEntry>) -> Seq<Seq<u8>> {
    chosen(entry_names(entries), |i: int| is_image(entries[i]))
}

/// Whether the entry is an image.
fn entry_is_image(entry: &DirEntry) -> (r: bool)
    ensures
        r == is_image(*entry),
{
    proof {
        reveal_strlit("jpg");
        reveal_strlit("jpeg");
        reveal_strlit("png");
    }
    entry.is_file && (entry.name.extension_is("jpg") || entry.name.extension_is("jpeg")
        || entry.name.extension_is("png"))
}

/// The images among the entries of a directory, by name.
pub fn find_images(entries: &Vec<DirEntry>) -> (images: Vec<PathName>)
    ensures
        in_name_order(views(images@)),
        views(images@).to_multiset() == image_names(entries@).to_multiset(),
{
    let ghost choice = |i: int| is_image(entries@[i]);
    let mut found: Vec<PathName> = Vec::new();
    let mut i: usize = 0;
    while i < entries.len()
        invariant
            i <= entries@.len(),
            choice == (|i: int| is_image(entries@[i])),
            views(found@) == chosen(entry_names(entries@).take(i as int), choice),
        decreases entries.len() - i,
    {
        proof {
            let taken = entry_names(entries@).take(i + 1);
            assert(taken.drop_last() =~= entry_names(entries@).take(i as int));
            assert(taken.last() == entries@[i as int].name@);
        }
        let ghost before = found@;
        if entry_is_image(&entries[i]) {
            found.push(entries[i].name.clone());
            assert(views(found@) =~= views(before).push(entries@[i as int].name@));
        }
        i = i + 1;
    }
    assert(entry_names(entries@).take(i as int) =~= entry_names(entries@));
    sort_names(&found)
}

/// The size at which an image is processed: its longer side becomes
/// `max_size`, the other follows in proportion, and both are rounded down to
/// whole patches of `p`.
pub open spec fn processed_size(h: int, w: int, max_size: int, p: int) -> (int, int) {
    if h < w {
        ((h * max_size / w) / p * p, max_size / p * p)
    } else {
        (max_size / p * p, (w * max_size / h) / p * p)
    }
}

/// The `(height, width)` at which an image of `h` by `w` is processed.
pub fn get_img_resolution(h: usize, w: usize, max_size: usize, p: usize) -> (size: (usize, usize))
    requires
        p > 0,
        h > 0 || w > 0,
        h < w ==> h * max_size <= usize::MAX,
        w <= h ==> w * max_size <= usize::MAX,
    ensures
        (size.0 as int, size.1 as int) == processed_size(
            h as int,
            w as int,
            max_size as int,
            p as int,
        ),
        size.0 as int % p as int == 0 && size.1 as int % p as int == 0,
        h < w ==> size.1 <= max_size < size.1 + p && size.0 * w <= h * max_size < (size.0 + p) * w,
        w <= h ==> size.0 <= max_size < size.0 + p && size.1 * h <= w * max_size < (size.1 + p)
            * h,
{
    proof {
        lemma_round_down(max_size as int, p as int);
        if h < w {
            assert(0 <= h * max_size) by (nonlinear_arith);
            lemma_quotient_bound(h * max_size, w as int);
            lemma_round_down(h * max_size / w as int, p as int);
        } else {
            assert(0 <= w * max_size) by (nonlinear_arith);
            lemma_quotient_bound(w * max_size, h as int);
            lemma_round_down(w * max_size / h as int, p as int);
        }
        if h < w {
            lemma_proportion(h as int, w as int, max_size as int, p as int);
        } else {
            lemma_proportion(w as int, h as int, max_size as int, p as int);
        }
    }
    if h < w {
        ((h * max_size / w) / p * p, (max_size / p) * p)
    } else {
        ((max_size / p) * p, (w * max_size / h) / p * p)
    }
}

proof fn lemma_round_down(x: int, p: int)
    requires
        x >= 0,
        p > 0,
    ensures
        0 <= x / p,
        0 <= x / p * p <= x,
        x < x / p * p + p,
        (x / p * p) % p == 0,
{
    vstd::arithmetic::div_mod::lemma_fundamental_div_mod(x, p);
    vstd::arithmetic::div_mod::lemma_div_pos_is_pos(x, p);
    assert(p * (x / p) == x / p * p) by (nonlinear_arith);
    vstd::arithmetic::div_mod::lemma_mod_multiples_basic(x / p, p);
}

/// The shorter side, in whole patches, is the largest that is in proportion.
proof fn lemma_proportion(short: int, long: int, max_size: int, p: int)
    requires
        p > 0,
        0 <= short,
        long > 0,
        max_size >= 0,
    ensures
        ({
            let side = (short * max_size / long) / p * p;
            &&& side * long <= short * max_size
            &&& short * max_size < (side + p) * long
        }),
{
    let x = short * max_size;
    let y = x / long;
    let side = y / p * p;
    assert(0 <= x) by (nonlinear_arith)
        requires
            x == short * max_size,
            0 <= short,
            0 <= max_size,
    ;
    vstd::arithmetic::div_mod::lemma_fundamental_div_mod(x, long);
    vstd::arithmetic::div_mod::lemma_div_pos_is_pos(x, long);
    lemma_round_down(y, p);
    assert(long * y <= x < long * y + long);
    assert(side * long <= long * y) by (nonlinear_arith)
        requires
            side <= y,
            0 < long,
    ;
    assert(long * y + long <= (side + p) * long) by (nonlinear_arith)
        requires
            y + 1 <= side + p,
            0 < long,
    ;
}

proof fn lemma_quotient_bound(x: int, d: int)
    requires
        x >= 0,
        d > 0,
    ensures
        0 <= x / d <= x,
{
    vstd::arithmetic::div_mod::lemma_div_pos_is_pos(x, d);
    vstd::arithmetic::div_mod::lemma_div_is_ordered_by_denominator(x, 1, d);
}

/// The processed size is made of whole patches and fits into a square of
/// `max_size`, which its longer side fills up to less than one patch.
pub proof fn law_processed_size(h: int, w: int, max_size: int, p: int)
    requires
        p > 0,
        h >= 0,
        w >= 0,
        h > 0 || w > 0,
        max_size >= 0,
    ensures
        ({
            let (nh, nw) = processed_size(h, w, max_size, p);
            let longer = if h < w {
                nw
            } else {
                nh
            };
            &&& nh % p == 0
            &&& nw % p == 0
            &&& 0 <= nh <= max_size
            &&& 0 <= nw <= max_size
            &&& longer <= max_size < longer + p
            &&& h < w ==> nh * w <= h * max_size < (nh + p) * w
            &&& w <= h ==> nw * h <= w * max_size < (nw + p) * h
        }),
{
    lemma_round_down(max_size, p);
    if h < w {
        lemma_scaled_side(h, w, max_size, p);
        lemma_proportion(h, w, max_size, p);
    } else {
        lemma_scaled_side(w, h, max_size, p);
        lemma_proportion(w, h, max_size, p);
    }
}

proof fn lemma_scaled_side(short: int, long: int, max_size: int, p: int)
    requires
        p > 0,
        0 <= short <= long,
        long > 0,
        max_size >= 0,
    ensures
        0 <= (short * max_size / long) / p * p <= max_size,
        ((short * max_size / long) / p * p) % p == 0,
{
    assert(0 <= short * max_size <= long * max_size) by (nonlinear_arith)
        requires
            0 <= short <= long,
            max_size >= 0,
    ;
    lemma_quotient_bound(short * max_size, long);
    vstd::arithmetic::div_mod::lemma_div_is_ordered(short * max_size, long * max_size, long);
    assert(long * max_size == max_size * long) by (nonlinear_arith);
    vstd::arithmetic::div_mod::lemma_div_multiples_vanish(max_size, long);
    lemma_round_down(short * max_size / long, p);
}

/// Turns pixels of three channels each into three planes, one per channel,
/// and normalizes every value by its channel.
pub fn to_planes<T: Copy, U, F: Fn(usize, T) -> U>(pixels: &Vec<T>, normalize: F) -> (planes: Vec<
    U,
>)
    requires
        pixels@.len() % 3 == 0,
        forall|c: usize, value: T| c < 3 ==> call_requires(normalize, (c, value)),
    ensures
        planes@.len() == pixels@.len(),
        forall|c: usize, i: int|
            c < 3 && 0 <= i < pixels@.len() / 3 ==> call_ensures(
                normalize,
                (c, pixels@[i * 3 + c]),
                #[trigger] planes@[c * (pixels@.len() / 3) + i],
            ),
{
    let count: usize = pixels.len() / 3;
    let mut planes: Vec<U> = Vec::new();
    let mut c: usize = 0;
    while c < 3
        invariant
            c <= 3,
            count == pixels@.len() / 3,
            pixels@.len() == 3 * count,
            pixels@.len() == pixels.len(),
            planes@.len() == c * count,
            forall|c: usize, value: T| c < 3 ==> call_requires(normalize, (c, value)),
            forall|d: usize, i: int|
                d < c && 0 <= i < count ==> call_ensures(
                    normalize,
                    (d, pixels@[i * 3 + d]),
                    #[trigger] planes@[d * count + i],
                ),
        decreases 3 - c,
    {
        let mut i: usize = 0;
        while i < count
            invariant
                c < 3,
                i <= count,
                count == pixels@.len() / 3,
                pixels@.len() == 3 * count,
                pixels@.len() == pixels.len(),
                planes@.len() == c * count + i,
                forall|c: usize, value: T| c < 3 ==> call_requires(normalize, (c, value)),
                forall|d: usize, j: int|
                    d < c && 0 <= j < count ==> call_ensures(
                        normalize,
                        (d, pixels@[j * 3 + d]),
                        #[trigger] planes@[d * count + j],
                    ),
                forall|j: int|
                    0 <= j < i ==> call_ensures(
                        normalize,
                        (c, pixels@[j * 3 + c]),
                        #[trigger] planes@[c * count + j],
                    ),
            decreases count - i,
        {
            let ghost before = planes@;
            planes.push(normalize(c, pixels[i * 3 + c]));
            proof {
                assert forall|d: usize, j: int| d < c && 0 <= j < count implies call_ensures(
                    normalize,
                    (d, pixels@[j * 3 + d]),
                    #[trigger] planes@[d * count + j],
                ) by {
                    assert(d * count + j < c * count) by (nonlinear_arith)
                        requires
                            d + 1 <= c,
                            j < count,
                    ;
                    assert(0 <= d * count) by (nonlinear_arith);
                    assert(planes@[d * count + j] == before[d * count + j]);
                }
                assert(0 <= c * count) by (nonlinear_arith);
            }
            i = i + 1;
        }
        assert((c + 1) * count == c * count + count) by (nonlinear_arith);
        proof {
            assert forall|d: usize, j: int| d < c + 1 && 0 <= j < count implies call_ensures(
                normalize,
                (d, pixels@[j * 3 + d]),
                #[trigger] planes@[d * count + j],
            ) by {
                if d == c {
                    assert(planes@[c * count + j] == planes@[d * count + j]);
                }
            }
        }
        c = c + 1;
    }
    planes
}

/// An image is a file whose extension is `jpg`, `jpeg` or `png` but for the case
/// of the letters; what stands before the extension does not count.
pub proof fn law_images_by_extension(entry: DirEntry, before: Seq<u8>, ext: Seq<u8>)
    requires
        entry.name@ == before.push(0x2e) + ext,
        before.len() > 0,
        ext.len() > 0,
        forall|i: int| 0 <= i < ext.len() ==> #[trigger] ext[i] != 0x2e,
    ensures
        is_image(entry) ==> entry.is_file,
        entry.is_file && ext == seq![0x6au8, 0x70u8, 0x67u8] ==> is_image(entry),
        entry.is_file && ext == seq![0x4au8, 0x50u8, 0x47u8] ==> is_image(entry),
        entry.is_file && ext == seq![0x6au8, 0x70u8, 0x65u8, 0x67u8] ==> is_image(entry),
        entry.is_file && ext == seq![0x4au8, 0x50u8, 0x45u8, 0x47u8] ==> is_image(entry),
        entry.is_file && ext == seq![0x70u8, 0x6eu8, 0x67u8] ==> is_image(entry),
        entry.is_file && ext == seq![0x50u8, 0x4eu8, 0x47u8] ==> is_image(entry),
        is_image(entry) ==> ext.len() == 3 || ext.len() == 4,
        is_image(entry) && ext.len() == 3 ==> {
            ||| (ext[0] == 0x6a || ext[0] == 0x4a) && (ext[1] == 0x70 || ext[1] == 0x50) && (ext[2]
                == 0x67 || ext[2] == 0x47)
            ||| (ext[0] == 0x70 || ext[0] == 0x50) && (ext[1] == 0x6e || ext[1] == 0x4e) && (ext[2]
                == 0x67 || ext[2] == 0x47)
        },
        is_image(entry) && ext.len() == 4 ==> (ext[0] == 0x6a || ext[0] == 0x4a) && (ext[1] == 0x70
            || ext[1] == 0x50) && (ext[2] == 0x65 || ext[2] == 0x45) && (ext[3] == 0x67 || ext[3]
            == 0x47),
{
    reveal_strlit("jpg");
    reveal_strlit("jpeg");
    reveal_strlit("png");
    law_extension_in_any_case(before, ext, "jpg"@);
    law_extension_in_any_case(before, ext, "jpeg"@);
    law_extension_in_any_case(before, ext, "png"@);
    assert("jpg"@[0] == 'j' && "jpg"@[1] == 'p' && "jpg"@[2] == 'g');
    assert("png"@[0] == 'p' && "png"@[1] == 'n' && "png"@[2] == 'g');
    assert("jpeg"@[0] == 'j' && "jpeg"@[1] == 'p' && "jpeg"@[2] == 'e' && "jpeg"@[3] == 'g');
}

/// The images that are found are the names of the entries that are images, each
/// as often as it occurs.
pub proof fn law_images_of_a_directory(entries: Seq<DirEntry>, name: Seq<u8>)
    ensures
        image_names(entries).contains(name) <==> exists|i: int|
            0 <= i < entries.len() && (#[trigger] entries[i]).name@ == name && is_image(entries[i]),
        image_names(entries).to_multiset().count(name) == Seq::new(
            entries.len(),
            |i: int| entries[i].name@ == name && is_image(entries[i]),
        ).to_multiset().count(true),
{
    let names = entry_names(entries);
    let choice = |i: int| is_image(entries[i]);
    law_chosen_names(names, choice, name);
    let marks = Seq::new(names.len(), |i: int| names[i] == name && choice(i));
    assert(marks =~= Seq::new(
        entries.len(),
        |i: int| entries[i].name@ == name && is_image(entries[i]),
    ));
    if exists|i: int|
        0 <= i < entries.len() && (#[trigger] entries[i]).name@ == name && is_image(entries[i]) {
        let i = choose|i: int|
            0 <= i < entries.len() && (#[trigger] entries[i]).name@ == name && is_image(
                entries[i],
            );
        assert(names[i] == name && choice(i));
    }
}

} // verus!
