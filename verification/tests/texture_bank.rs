use yadoom_rs::texture::{
    pack_sprite_code, sprite_key, Colormap, Palette, Texture, TextureBank, TextureError, TextureId, NO_TEXTURE,
};

fn dummy_tex(color: u8) -> Texture {
    Texture { name: "Dummy".to_string(), w: 2, h: 2, pixels: vec![color; 4] }
}

#[test]
fn insert_and_lookup() {
    let mut bank = TextureBank::default_with_checker();
    let red = bank.insert("RED", dummy_tex(0x00)).unwrap();
    let blue = bank.insert("BLUE", dummy_tex(0xFF)).unwrap();

    assert_ne!(red, NO_TEXTURE);
    assert_ne!(blue, red);
    assert_eq!(bank.id("RED"), Some(red));
    assert_eq!(bank.id("BLUE"), Some(blue));
    assert_eq!(bank.id("NOPE"), None);

    assert_eq!(bank.texture(red).unwrap().pixels[0], 0x00);
    assert_eq!(bank.texture(blue).unwrap().pixels[0], 0xFF);
}

#[test]
fn duplicate_name_rejected() {
    let mut bank = TextureBank::default_with_checker();
    bank.insert("WOOD", dummy_tex(1)).unwrap();
    let err = bank.insert("WOOD", dummy_tex(2)).unwrap_err();
    assert_eq!(err, TextureError::Duplicate("WOOD".into()));
    // texture count still 2 (checker + first WOOD)
    assert_eq!(bank.len(), 2);
}

#[test]
fn bad_id_guard() {
    let bank = TextureBank::default_with_checker();
    let bad = TextureId::MAX;
    assert_eq!(bank.texture(bad).unwrap_err(), TextureError::BadId(bad));
}

#[test]
fn fallback_is_the_checkerboard_at_id_zero() {
    let bank = TextureBank::default_with_checker();
    assert_eq!(bank.len(), 1);
    assert!(bank.is_empty());
    assert_eq!(bank.id("MISSING"), Some(0));
    let t = bank.texture(NO_TEXTURE).unwrap();
    assert_eq!((t.name.as_str(), t.w, t.h), ("CHECKER", 8, 8));
    assert_eq!(t.pixels[0], 8);
    assert_eq!(t.pixels[1], 16);
    assert_eq!(t.pixels[8], 16);
    assert_eq!(t.pixels[9], 8);
    assert_eq!(Texture::default(), t.clone());
}

#[test]
fn ids_stay_stable_as_the_bank_grows() {
    let mut bank = TextureBank::new(dummy_tex(3));
    let a = bank.insert("A", dummy_tex(10)).unwrap();
    let b = bank.insert("B", dummy_tex(20)).unwrap();
    let c = bank.insert("C", dummy_tex(30)).unwrap();
    assert_eq!((a, b, c), (1, 2, 3));
    assert_eq!(bank.id("A"), Some(1));
    assert_eq!(bank.texture(a).unwrap().pixels[3], 10);
    assert_eq!(bank.id_or_missing("A"), 1);
    assert_eq!(bank.id_or_missing("Z"), NO_TEXTURE);
    assert!(!bank.is_empty());
}

#[test]
fn shade_table_maps_through_colormap_then_palette() {
    let mut bank = TextureBank::default_with_checker();
    let mut pal = Palette::default();
    for i in 0..256 {
        pal.0[i] = (i as u32) * 3;
    }
    let mut cm = Colormap::default();
    for t in 0..34 {
        for i in 0..256 {
            cm.0[t][i] = ((i + 2 * t) % 256) as u8;
        }
    }
    bank.set_palette(pal);
    bank.set_colormap(cm);
    bank.build_shade_table();
    assert_eq!(bank.get_color(0, 0), 0);
    assert_eq!(bank.get_color(5, 7), (7 + 10) * 3);
    assert_eq!(bank.get_color(33, 255), ((255 + 66) % 256) * 3);
}

#[test]
fn sprite_codes_pack_big_endian() {
    assert_eq!(pack_sprite_code("TROO"), 0x5452_4F4F);
    assert_eq!(sprite_key("TROO", 'A', 1), 0x5452_4F4F_4101);
}

#[test]
fn sprite_rotations_and_mirrors() {
    let mut bank = TextureBank::default_with_checker();
    bank.register_sprite_lump("TROOA1", 5);
    bank.register_sprite_lump("POSSB2B8", 6);
    bank.register_sprite_lump("SARGA0", 7);
    bank.register_sprite_lump("TOOLONGNAME", 9);
    assert_eq!(bank.sprite_id("TROO", 'A', 1), (5, false));
    assert_eq!(bank.sprite_id("POSS", 'B', 2), (6, false));
    assert_eq!(bank.sprite_id("POSS", 'B', 8), (6, true));
    // rotation 3 absent: falls back to the billboard, never mirrored
    assert_eq!(bank.sprite_id("SARG", 'A', 3), (7, false));
    // nothing at all
    assert_eq!(bank.sprite_id("POSS", 'B', 3), (NO_TEXTURE, false));
    assert_eq!(bank.sprite_id("TROO", 'B', 1), (NO_TEXTURE, false));
}

#[test]
fn same_rotation_twice_is_mirrored() {
    let mut bank = TextureBank::default_with_checker();
    bank.register_sprite_lump("HEADC3C3", 4);
    assert_eq!(bank.sprite_id("HEAD", 'C', 3), (4, true));
}

#[test]
fn texture_mut_writes_back() {
    let mut bank = TextureBank::default_with_checker();
    let id = bank.insert("GRAY", dummy_tex(7)).unwrap();
    bank.texture_mut(id).unwrap().pixels[3] = 42;
    assert_eq!(bank.texture(id).unwrap().pixels, vec![7, 7, 7, 42]);
    assert_eq!(bank.texture_mut(9).unwrap_err(), TextureError::BadId(9));
    assert_eq!(bank.len(), 2);
}
