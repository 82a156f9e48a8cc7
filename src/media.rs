//! The images shown while teaching and the clips played when meowing.

use crate::random::choose_from;
use rand::rngs::StdRng;
use vstd::prelude::*;

verus! {

/// The asset paths of the teaching images, in order.
pub open spec fn education_image_paths() -> Seq<Seq<char>> {
    seq![
        "educational/meme1.png"@,
        "educational/meme2.png"@,
        "educational/meme3.png"@,
        "educational/text/tip1.png"@,
        "educational/text/tip2.png"@,
        "educational/text/tip3.png"@,
        "educational/text/tip4.png"@,
        "educational/text/tip5.png"@,
        "educational/text/tip6.png"@,
        "educational/text/tip7.png"@,
    ]
}

/// Whether `p` is one of the asset paths of the teaching images.
pub open spec fn is_education_image(p: Seq<char>) -> bool {
    education_image_paths().contains(p)
}

/// The asset paths of the teaching images, one entry each.
pub fn education_images() -> (r: Vec<&'static str>)
    ensures
        r@.len() == education_image_paths().len(),
        forall|i: int| 0 <= i < r@.len() ==> #[trigger] r@[i]@ == education_image_paths()[i],
{
    let r = vec![
        "educational/meme1.png",
        "educational/meme2.png",
        "educational/meme3.png",
        "educational/text/tip1.png",
        "educational/text/tip2.png",
        "educational/text/tip3.png",
        "educational/text/tip4.png",
        "educational/text/tip5.png",
        "educational/text/tip6.png",
        "educational/text/tip7.png",
    ];
    assert(r@[0]@ == education_image_paths()[0]);
    assert(r@[1]@ == education_image_paths()[1]);
    assert(r@[2]@ == education_image_paths()[2]);
    assert(r@[3]@ == education_image_paths()[3]);
    assert(r@[4]@ == education_image_paths()[4]);
    assert(r@[5]@ == education_image_paths()[5]);
    assert(r@[6]@ == education_image_paths()[6]);
    assert(r@[7]@ == education_image_paths()[7]);
    assert(r@[8]@ == education_image_paths()[8]);
    assert(r@[9]@ == education_image_paths()[9]);
    r
}

/// Picks a teaching image, each equally likely.
pub fn random_education_image(rng: &mut StdRng) -> (r: String)
    ensures
        is_education_image(r@),
{
    let items = education_images();
    let picked = choose_from(rng, &items);
    let chosen = match picked {
        Some(p) => p,
        None => items[0],
    };
    proof {
        let i = choose|i: int| 0 <= i < items@.len() && items@[i] == chosen;
        assert(education_image_paths()[i] == chosen@);
    }
    chosen.to_owned()
}

/// The asset paths of the meow clips, in order.
pub open spec fn meow_clip_paths() -> Seq<Seq<char>> {
    seq![
        "meows/anais.ogg"@,
        "meows/bella.ogg"@,
        "meows/ben.ogg"@,
        "meows/caroline.ogg"@,
        "meows/dimitra.ogg"@,
        "meows/dom.ogg"@,
        "meows/helen-long-quack.ogg"@,
        "meows/helen.ogg"@,
        "meows/helen-quack.ogg"@,
        "meows/julian.ogg"@,
        "meows/kenneth.ogg"@,
        "meows/kian.ogg"@,
        "meows/laura.ogg"@,
        "meows/maddie.ogg"@,
        "meows/manya.ogg"@,
        "meows/nehal.ogg"@,
        "meows/phoebe.ogg"@,
        "meows/rose.ogg"@,
        "meows/stemple.ogg"@,
        "meows/tanmay.ogg"@,
        "meows/tiff.ogg"@,
        "meows/will-sasaki.ogg"@,
        "meows/zoe.ogg"@,
    ]
}

/// Whether `p` is one of the asset paths of the meow clips.
pub open spec fn is_meow_clip(p: Seq<char>) -> bool {
    meow_clip_paths().contains(p)
}

/// The asset paths of the meow clips, one entry each.
pub fn meow_clips() -> (r: Vec<&'static str>)
    ensures
        r@.len() == meow_clip_paths().len(),
        forall|i: int| 0 <= i < r@.len() ==> #[trigger] r@[i]@ == meow_clip_paths()[i],
{
    let r = vec![
        "meows/anais.ogg",
        "meows/bella.ogg",
        "meows/ben.ogg",
        "meows/caroline.ogg",
        "meows/dimitra.ogg",
        "meows/dom.ogg",
        "meows/helen-long-quack.ogg",
        "meows/helen.ogg",
        "meows/helen-quack.ogg",
        "meows/julian.ogg",
        "meows/kenneth.ogg",
        "meows/kian.ogg",
        "meows/laura.ogg",
        "meows/maddie.ogg",
        "meows/manya.ogg",
        "meows/nehal.ogg",
        "meows/phoebe.ogg",
        "meows/rose.ogg",
        "meows/stemple.ogg",
        "meows/tanmay.ogg",
        "meows/tiff.ogg",
        "meows/will-sasaki.ogg",
        "meows/zoe.ogg",
    ];
    assert(r@[0]@ == meow_clip_paths()[0]);
    assert(r@[1]@ == meow_clip_paths()[1]);
    assert(r@[2]@ == meow_clip_paths()[2]);
    assert(r@[3]@ == meow_clip_paths()[3]);
    assert(r@[4]@ == meow_clip_paths()[4]);
    assert(r@[5]@ == meow_clip_paths()[5]);
    assert(r@[6]@ == meow_clip_paths()[6]);
    assert(r@[7]@ == meow_clip_paths()[7]);
    assert(r@[8]@ == meow_clip_paths()[8]);
    assert(r@[9]@ == meow_clip_paths()[9]);
    assert(r@[10]@ == meow_clip_paths()[10]);
    assert(r@[11]@ == meow_clip_paths()[11]);
    assert(r@[12]@ == meow_clip_paths()[12]);
    assert(r@[13]@ == meow_clip_paths()[13]);
    assert(r@[14]@ == meow_clip_paths()[14]);
    assert(r@[15]@ == meow_clip_paths()[15]);
    assert(r@[16]@ == meow_clip_paths()[16]);
    assert(r@[17]@ == meow_clip_paths()[17]);
    assert(r@[18]@ == meow_clip_paths()[18]);
    assert(r@[19]@ == meow_clip_paths()[19]);
    assert(r@[20]@ == meow_clip_paths()[20]);
    assert(r@[21]@ == meow_clip_paths()[21]);
    assert(r@[22]@ == meow_clip_paths()[22]);
    r
}

/// Picks a meow clip, each equally likely.
pub fn random_meow(rng: &mut StdRng) -> (r: String)
    ensures
        is_meow_clip(r@),
{
    let items = meow_clips();
    let picked = choose_from(rng, &items);
    let chosen = match picked {
        Some(p) => p,
        None => items[0],
    };
    proof {
        let i = choose|i: int| 0 <= i < items@.len() && items@[i] == chosen;
        assert(meow_clip_paths()[i] == chosen@);
    }
    chosen.to_owned()
}

} // verus!
