use niri_dock::desktop::icon_from_desktop_entry;
use niri_dock::icon_cache::{
    after_fallback_fetch, after_icon_fetch, ensure_icon_loaded, update_cache_status, IconCache,
    IconStatus, LoadStep,
};
use niri_dock::icons::{generate_ordered_sizes, swizzle_rgba_to_bgra, IconKey};
use niri_dock::lookup::{
    generate_search_variants, icon_names_to_try, image_kind_of, names_from_variants,
    process_image_file, variants_of_lowercase, ImageKind,
};

fn key(app: &str, fallback: Option<&str>) -> IconKey {
    IconKey {
        app_id: app.to_string(),
        size: 32,
        theme: Some("Papirus".to_string()),
        fallback: fallback.map(|s| s.to_string()),
    }
}

fn ready_pixels(st: Option<&IconStatus>) -> Option<(Vec<u8>, i32, i32, bool)> {
    match st {
        Some(IconStatus::Ready { pixels, width, height, fallback }) => {
            Some((pixels.clone(), *width, *height, *fallback))
        }
        _ => None,
    }
}

fn is_loading(st: Option<&IconStatus>) -> bool {
    matches!(st, Some(IconStatus::Loading))
}

fn is_not_found(st: Option<&IconStatus>) -> bool {
    matches!(st, Some(IconStatus::NotFound))
}

#[test]
fn ordered_sizes_start_at_closest_not_below() {
    assert_eq!(
        generate_ordered_sizes(30),
        vec![32, 36, 42, 44, 48, 64, 72, 96, 128, 150, 192, 256, 384, 512, 1024, 28, 24, 22, 20, 16, 8]
    );
}

#[test]
fn ordered_sizes_exact_match_first() {
    let r = generate_ordered_sizes(48);
    assert_eq!(r[0], 48);
    assert_eq!(r[1], 64);
    assert_eq!(r[r.len() - 1], 8);
    assert_eq!(r.len(), 21);
}

#[test]
fn ordered_sizes_above_all_go_down() {
    let r = generate_ordered_sizes(2000);
    assert_eq!(r[0], 1024);
    assert_eq!(r[1], 512);
    assert_eq!(r[20], 8);
}

#[test]
fn ordered_sizes_zero_keeps_increasing_order() {
    let r = generate_ordered_sizes(0);
    assert_eq!(r[0], 8);
    assert_eq!(r[20], 1024);
    let mut sorted = r.clone();
    sorted.sort();
    assert_eq!(r, sorted);
}

#[test]
fn ordered_sizes_hold_every_standard_size_once() {
    for t in [0u32, 1, 8, 9, 33, 150, 151, 1024, 1025, 65535] {
        let mut r = generate_ordered_sizes(t);
        r.sort();
        assert_eq!(
            r,
            vec![8, 16, 20, 22, 24, 28, 32, 36, 42, 44, 48, 64, 72, 96, 128, 150, 192, 256, 384, 512, 1024]
        );
    }
}

#[test]
fn swizzle_swaps_red_and_blue() {
    let mut p = vec![1u8, 2, 3, 4, 5, 6, 7, 8, 9, 10];
    swizzle_rgba_to_bgra(&mut p);
    assert_eq!(p, vec![3, 2, 1, 4, 7, 6, 5, 8, 9, 10]);
}

#[test]
fn swizzle_twice_gives_pixels_back() {
    let orig: Vec<u8> = (0u8..=42).collect();
    let mut p = orig.clone();
    swizzle_rgba_to_bgra(&mut p);
    assert_ne!(p, orig);
    swizzle_rgba_to_bgra(&mut p);
    assert_eq!(p, orig);
}

#[test]
fn swizzle_short_buffer_untouched() {
    let mut p = vec![1u8, 2, 3];
    swizzle_rgba_to_bgra(&mut p);
    assert_eq!(p, vec![1, 2, 3]);
}

#[test]
fn search_variants_lowercase_and_short() {
    let (lower, short) = generate_search_variants("org.Gnome.Nautilus");
    assert_eq!(lower, "org.gnome.nautilus");
    assert_eq!(short, "nautilus");
}

#[test]
fn search_variants_without_dot() {
    let (lower, short) = generate_search_variants("Firefox");
    assert_eq!(lower, "firefox");
    assert_eq!(short, "firefox");
}

#[test]
fn search_variants_trailing_dot_gives_empty_short() {
    let (lower, short) = variants_of_lowercase("app.".to_string());
    assert_eq!(lower, "app.");
    assert_eq!(short, "");
}

#[test]
fn names_listed_once_in_order() {
    let names = icon_names_to_try(Some("firefox".to_string()), &"Firefox".to_string());
    assert_eq!(names, vec!["firefox".to_string(), "Firefox".to_string()]);
}

#[test]
fn names_without_desktop_entry() {
    let names = icon_names_to_try(None, &"org.Gnome.Nautilus".to_string());
    assert_eq!(
        names,
        vec![
            "org.Gnome.Nautilus".to_string(),
            "org.gnome.nautilus".to_string(),
            "nautilus".to_string()
        ]
    );
}

#[test]
fn names_from_given_variants() {
    let names = names_from_variants(
        Some("icon".to_string()),
        &"a.b".to_string(),
        "a.b".to_string(),
        "icon".to_string(),
    );
    assert_eq!(names, vec!["icon".to_string(), "a.b".to_string()]);
}

#[test]
fn image_kind_by_extension() {
    assert_eq!(image_kind_of(&Some("svg".to_string())), ImageKind::Svg);
    assert_eq!(image_kind_of(&Some("png".to_string())), ImageKind::Raster);
    assert_eq!(image_kind_of(&Some("jpg".to_string())), ImageKind::Raster);
    assert_eq!(image_kind_of(&Some("jpeg".to_string())), ImageKind::Raster);
    assert_eq!(image_kind_of(&Some("SVG".to_string())), ImageKind::Unsupported);
    assert_eq!(image_kind_of(&Some("xpm".to_string())), ImageKind::Unsupported);
    assert_eq!(image_kind_of(&None), ImageKind::Unsupported);
}

#[test]
fn process_image_file_reads_path_extension() {
    assert_eq!(process_image_file("/usr/share/icons/hicolor/48x48/apps/firefox.png"), ImageKind::Raster);
    assert_eq!(process_image_file("/usr/share/icons/a.b/scalable/foo.svg"), ImageKind::Svg);
    assert_eq!(process_image_file("/home/u/pic.jpeg"), ImageKind::Raster);
    assert_eq!(process_image_file("/home/u/.svg"), ImageKind::Unsupported);
    assert_eq!(process_image_file("/home/u/noext"), ImageKind::Unsupported);
    assert_eq!(process_image_file("archive.tar.svg"), ImageKind::Svg);
}

#[test]
fn desktop_entry_icon_found() {
    let content = "[Desktop Entry]\nName=Firefox\n  Icon=firefox  \nExec=firefox\n";
    assert_eq!(icon_from_desktop_entry(content), Some("firefox".to_string()));
}

#[test]
fn desktop_entry_first_icon_line_wins() {
    let content = "Icon=first\r\nIcon=second\n";
    assert_eq!(icon_from_desktop_entry(content), Some("first".to_string()));
}

#[test]
fn desktop_entry_repeated_keys_stripped() {
    assert_eq!(icon_from_desktop_entry("Icon=Icon=x"), Some("x".to_string()));
}

#[test]
fn desktop_entry_without_icon() {
    assert_eq!(icon_from_desktop_entry("[Desktop Entry]\nName=X\nIcons=no"), None);
    assert_eq!(icon_from_desktop_entry(""), None);
    assert_eq!(icon_from_desktop_entry("icon=lower"), None);
}

#[test]
fn desktop_entry_empty_icon_value() {
    assert_eq!(icon_from_desktop_entry("Name=a\nIcon=\n"), Some("".to_string()));
}

#[test]
fn ensure_icon_loaded_marks_loading_once() {
    let mut cache = IconCache::new();
    assert!(ensure_icon_loaded(&mut cache, key("firefox", None)));
    assert!(is_loading(cache.get(&key("firefox", None))));
    assert!(!ensure_icon_loaded(&mut cache, key("firefox", None)));
    assert!(ensure_icon_loaded(&mut cache, key("kitty", None)));
}

#[test]
fn update_cache_status_overwrites() {
    let mut cache = IconCache::new();
    update_cache_status(&mut cache, key("a", None), IconStatus::Loading);
    update_cache_status(&mut cache, key("a", None), IconStatus::NotFound);
    assert!(is_not_found(cache.get(&key("a", None))));
    assert!(cache.contains_key(&key("a", None)));
    assert!(!cache.contains_key(&key("b", None)));
}

#[test]
fn found_icon_becomes_ready() {
    let mut cache = IconCache::new();
    ensure_icon_loaded(&mut cache, key("a", None));
    let step = after_icon_fetch(&mut cache, key("a", None), Some((vec![1, 2, 3, 4], 1, 1)), false);
    assert!(matches!(step, LoadStep::Finished));
    assert_eq!(ready_pixels(cache.get(&key("a", None))), Some((vec![1, 2, 3, 4], 1, 1, false)));
}

#[test]
fn missing_icon_without_fallback_not_found() {
    let mut cache = IconCache::new();
    let step = after_icon_fetch(&mut cache, key("a", None), None, false);
    assert!(matches!(step, LoadStep::Finished));
    assert!(is_not_found(cache.get(&key("a", None))));
}

#[test]
fn missing_icon_with_fallback_not_a_file() {
    let mut cache = IconCache::new();
    let step = after_icon_fetch(&mut cache, key("a", Some("/nope.png")), None, false);
    assert!(matches!(step, LoadStep::Finished));
    assert!(is_not_found(cache.get(&key("a", Some("/nope.png")))));
}

#[test]
fn missing_icon_fetches_uncached_fallback() {
    let mut cache = IconCache::new();
    let icon = key("a", Some("/fb.png"));
    let step = after_icon_fetch(&mut cache, icon.duplicate(), None, true);
    let fb = match step {
        LoadStep::FetchFallback(k) => k,
        _ => panic!("fallback expected"),
    };
    assert_eq!(fb.app_id, "/fb.png");
    assert_eq!(fb.size, 32);
    assert_eq!(fb.fallback, Some("/fb.png".to_string()));
    assert!(is_loading(cache.get(&icon)));
    assert!(is_loading(cache.get(&fb)));
    after_fallback_fetch(&mut cache, icon.duplicate(), fb.duplicate(), Some((vec![9, 9, 9, 9], 1, 1)));
    assert_eq!(ready_pixels(cache.get(&icon)), Some((vec![9, 9, 9, 9], 1, 1, true)));
    assert_eq!(ready_pixels(cache.get(&fb)), Some((vec![9, 9, 9, 9], 1, 1, true)));
}

#[test]
fn fallback_not_found_ends_both_not_found() {
    let mut cache = IconCache::new();
    let icon = key("a", Some("/fb.png"));
    let fb = match after_icon_fetch(&mut cache, icon.duplicate(), None, true) {
        LoadStep::FetchFallback(k) => k,
        _ => panic!("fallback expected"),
    };
    after_fallback_fetch(&mut cache, icon.duplicate(), fb.duplicate(), None);
    assert!(is_not_found(cache.get(&icon)));
    assert!(is_not_found(cache.get(&fb)));
}

#[test]
fn cached_fallback_reused() {
    let mut cache = IconCache::new();
    let fb_key = IconKey {
        app_id: "/fb.png".to_string(),
        size: 32,
        theme: Some("Papirus".to_string()),
        fallback: Some("/fb.png".to_string()),
    };
    update_cache_status(
        &mut cache,
        fb_key,
        IconStatus::Ready { pixels: vec![5, 6, 7, 8], width: 1, height: 1, fallback: true },
    );
    let step = after_icon_fetch(&mut cache, key("b", Some("/fb.png")), None, true);
    assert!(matches!(step, LoadStep::Finished));
    assert_eq!(ready_pixels(cache.get(&key("b", Some("/fb.png")))), Some((vec![5, 6, 7, 8], 1, 1, true)));
}

#[test]
fn loading_fallback_is_fetched_again_for_the_icon() {
    let mut cache = IconCache::new();
    let icon = key("a", Some("/fb.png"));
    let _ = after_icon_fetch(&mut cache, icon.duplicate(), None, true);
    let other = key("c", Some("/fb.png"));
    let fb = match after_icon_fetch(&mut cache, other.duplicate(), None, true) {
        LoadStep::FetchFallback(k) => k,
        _ => panic!("fallback expected"),
    };
    assert_eq!(fb.app_id, "/fb.png");
    assert!(is_loading(cache.get(&other)));
    after_fallback_fetch(&mut cache, other.duplicate(), fb.duplicate(), Some((vec![1, 1, 1, 1], 1, 1)));
    assert_eq!(ready_pixels(cache.get(&other)), Some((vec![1, 1, 1, 1], 1, 1, true)));
    assert_eq!(ready_pixels(cache.get(&fb)), Some((vec![1, 1, 1, 1], 1, 1, true)));
}

#[test]
fn not_found_fallback_makes_icon_not_found() {
    let mut cache = IconCache::new();
    let icon = key("a", Some("/fb.png"));
    let fb = match after_icon_fetch(&mut cache, icon.duplicate(), None, true) {
        LoadStep::FetchFallback(k) => k,
        _ => panic!("fallback expected"),
    };
    update_cache_status(&mut cache, fb, IconStatus::NotFound);
    let step = after_icon_fetch(&mut cache, key("d", Some("/fb.png")), None, true);
    assert!(matches!(step, LoadStep::Finished));
    assert!(is_not_found(cache.get(&key("d", Some("/fb.png")))));
}

#[test]
fn ordered_sizes_large_target_goes_down_from_largest() {
    assert_eq!(
        generate_ordered_sizes(65568),
        vec![1024, 512, 384, 256, 192, 150, 128, 96, 72, 64, 48, 44, 42, 36, 32, 28, 24, 22, 20, 16, 8]
    );
    assert_eq!(generate_ordered_sizes(1024)[0], 1024);
    assert_eq!(generate_ordered_sizes(1025)[0], 1024);
}
