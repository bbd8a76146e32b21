use b3d2glb::texture::{texture_to_png, extension_candidates, first_existing, clean_texture_path, png_has_alpha, png_has_semi_transparent, texture_candidates, texture_stem};
use b3d2glb::writer::{resolve_alpha_mode, AlphaMode};

fn png(alphas: &[u8]) -> Vec<u8> {
    let mut img = image::RgbaImage::new(alphas.len() as u32, 1);
    for (i, a) in alphas.iter().enumerate() {
        img.put_pixel(i as u32, 0, image::Rgba([10, 20, 30, *a]));
    }
    let mut out = std::io::Cursor::new(Vec::new());
    img.write_to(&mut out, image::ImageFormat::Png).unwrap();
    out.into_inner()
}

#[test]
fn stem_of_windows_path() {
    assert_eq!(texture_stem("gfx\\monkeyskin.bmp"), "monkeyskin");
    assert_eq!(texture_stem(".\\gfx\\monkeyskin.bmp"), "monkeyskin");
    assert_eq!(texture_stem("./a/b.c.png"), "b.c");
    assert_eq!(texture_stem(".hidden"), ".hidden");
    assert_eq!(texture_stem("dir/name."), "name");
    assert_eq!(texture_stem("dir/"), "dir");
    assert_eq!(texture_stem(""), "unknown");
    assert_eq!(texture_stem("a/.."), "unknown");
    assert_eq!(texture_stem("/"), "unknown");
}

#[test]
fn clean_paths() {
    assert_eq!(clean_texture_path(".\\.\\gfx\\a.bmp"), "gfx/a.bmp");
    assert_eq!(clean_texture_path("./././x.png"), "x.png");
    assert_eq!(clean_texture_path(".\\./y.png"), "y.png");
    assert_eq!(clean_texture_path("./.\\z.png"), ".\\z.png".replace('\\', "/"));
}

#[test]
fn candidates_in_search_order() {
    let c = texture_candidates("gfx\\Skin.BMP", "/game");
    assert_eq!(c[0], "/game/gfx/Skin.BMP");
    assert_eq!(c[1], "/game/gfx/Skin.bmp");
    assert_eq!(c[2], "/game/gfx/Skin.jpg");
    assert_eq!(c[3], "/game/gfx/Skin.jpeg");
    assert_eq!(c[4], "/game/gfx/Skin.png");
    assert_eq!(c[5], "/game/gfx/Skin.tga");
    assert_eq!(c[6], "/game/Skin.BMP");
    assert_eq!(c[12], "/game/skin");
    assert_eq!(c[13], "/game/skin.bmp");
    assert_eq!(c[18], "/game/mods/Stranded II/gfx/Skin");
    assert_eq!(c[24], "/game/mods/Stranded II/gfx/skin");
    assert_eq!(c[30], "/game/gfx/Skin");
    assert_eq!(c[36], "/game/gfx/skin");
    assert_eq!(c.len(), 42);
}

#[test]
fn candidates_without_known_extension() {
    let c = texture_candidates("tex.dds", "game/");
    assert_eq!(&c[0..6], &[
        "game/tex.dds".to_string(),
        "game/tex.bmp".to_string(),
        "game/tex.jpg".to_string(),
        "game/tex.jpeg".to_string(),
        "game/tex.png".to_string(),
        "game/tex.tga".to_string(),
    ]);
}

#[test]
fn candidates_for_absolute_path_ignore_dir() {
    let c = texture_candidates("/abs/t", "/game");
    assert_eq!(c[0], "/abs/t");
    assert_eq!(c[1], "/abs/t.bmp");
    assert_eq!(c[6], "/game/t");
}

#[test]
fn candidates_without_file_name() {
    let c = texture_candidates("", "/game");
    assert_eq!(c.len(), 6);
    assert_eq!(c[0], "/game/");
    assert_eq!(c[1], "/game.bmp");
    assert_eq!(c[5], "/game.tga");
}

#[test]
fn alpha_checks() {
    let opaque = png(&[255, 255]);
    let masked = png(&[255, 0]);
    let blended = png(&[255, 128]);
    assert!(!png_has_alpha(&opaque));
    assert!(png_has_alpha(&masked));
    assert!(png_has_alpha(&blended));
    assert!(!png_has_semi_transparent(&opaque));
    assert!(!png_has_semi_transparent(&masked));
    assert!(png_has_semi_transparent(&blended));
    assert!(!png_has_alpha(b"not an image"));
    assert!(!png_has_semi_transparent(b"not an image"));
}

#[test]
fn alpha_mode_from_hint_or_pixels() {
    let opaque = png(&[255, 255]);
    let masked = png(&[255, 0]);
    let blended = png(&[0, 128]);
    assert_eq!(resolve_alpha_mode(Some(AlphaMode::Mask), &blended), Some(AlphaMode::Mask));
    assert_eq!(resolve_alpha_mode(Some(AlphaMode::Blend), &opaque), Some(AlphaMode::Blend));
    assert_eq!(resolve_alpha_mode(None, &opaque), None);
    assert_eq!(resolve_alpha_mode(None, &masked), Some(AlphaMode::Mask));
    assert_eq!(resolve_alpha_mode(None, &blended), Some(AlphaMode::Blend));
    assert_eq!(resolve_alpha_mode(None, b"junk"), None);
}

#[test]
fn first_existing_candidate() {
    assert_eq!(first_existing(&[false, true, true]), Some(1));
    assert_eq!(first_existing(&[true]), Some(0));
    assert_eq!(first_existing(&[false, false]), None);
    assert_eq!(first_existing(&[]), None);
}

#[test]
fn extension_candidates_cover_the_known_extensions() {
    let c = extension_candidates("/g/Skin.TGA", Some("TGA"));
    assert_eq!(c, vec!["/g/Skin.TGA", "/g/Skin.tga", "/g/Skin.bmp", "/g/Skin.jpg", "/g/Skin.jpeg", "/g/Skin.png"]);
    let c = extension_candidates("/g/Skin", None);
    assert_eq!(c, vec!["/g/Skin", "/g/Skin.bmp", "/g/Skin.jpg", "/g/Skin.jpeg", "/g/Skin.png", "/g/Skin.tga"]);
    let c = extension_candidates("/g/a.Png", Some("Png"));
    assert_eq!(c.len(), 6);
    assert_eq!(c[1], "/g/a.png");
}

fn bmp(alphas: &[u8]) -> Vec<u8> {
    let mut img = image::RgbImage::new(alphas.len() as u32, 1);
    for (i, a) in alphas.iter().enumerate() {
        img.put_pixel(i as u32, 0, image::Rgb([*a, 20, 30]));
    }
    let mut out = std::io::Cursor::new(Vec::new());
    img.write_to(&mut out, image::ImageFormat::Bmp).unwrap();
    out.into_inner()
}

#[test]
fn texture_files_become_png() {
    let file = bmp(&[1, 2, 3]);
    let png = texture_to_png(&file, "/g/gfx/Skin.BMP").unwrap();
    assert_eq!(&png[0..8], b"\x89PNG\r\n\x1a\n");
    let back = image::load_from_memory_with_format(&png, image::ImageFormat::Png).unwrap().to_rgb8();
    assert_eq!(back.get_pixel(2, 0), &image::Rgb([3, 20, 30]));
    // the extension decides the format
    assert_eq!(texture_to_png(&file, "/g/skin.png"), None);
    assert_eq!(texture_to_png(&file, "/g/skin"), None);
    assert_eq!(texture_to_png(&file, "/g/skin."), None);
    assert_eq!(texture_to_png(&file, "/g/.bmp"), None);
    assert_eq!(texture_to_png(&file, "/g/skin.xyz"), None);
}
