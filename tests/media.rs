use bonnie_buddy::media::{education_images, meow_clips, random_education_image, random_meow};
use rand::rngs::StdRng;
use rand::SeedableRng;

#[test]
fn teaching_images_come_from_the_list() {
    let list = education_images();
    assert_eq!(list.len(), 10);
    assert_eq!(list[0], "educational/meme1.png");
    assert_eq!(list[9], "educational/text/tip7.png");
    let mut rng = StdRng::seed_from_u64(9);
    let mut seen = std::collections::BTreeSet::new();
    for _ in 0..300 {
        let img = random_education_image(&mut rng);
        assert!(list.contains(&img.as_str()));
        seen.insert(img);
    }
    assert!(seen.len() > 1);
}

#[test]
fn meows_come_from_the_list() {
    let list = meow_clips();
    assert_eq!(list.len(), 23);
    assert_eq!(list[0], "meows/anais.ogg");
    assert_eq!(list[22], "meows/zoe.ogg");
    let mut rng = StdRng::seed_from_u64(10);
    let mut seen = std::collections::BTreeSet::new();
    for _ in 0..500 {
        let clip = random_meow(&mut rng);
        assert!(list.contains(&clip.as_str()));
        seen.insert(clip);
    }
    assert!(seen.len() > 1);
}

#[test]
fn lists_hold_each_asset_once() {
    let images = education_images();
    let unique: std::collections::BTreeSet<_> = images.iter().collect();
    assert_eq!(unique.len(), images.len());
    let clips = meow_clips();
    let unique: std::collections::BTreeSet<_> = clips.iter().collect();
    assert_eq!(unique.len(), clips.len());
    assert_eq!(clips[6], "meows/helen-long-quack.ogg");
    assert_eq!(images[3], "educational/text/tip1.png");
}
