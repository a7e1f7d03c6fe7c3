use std::collections::{HashMap, HashSet};

use hypowertools::icon::IconCache;
use hypowertools::raster::{icon_format, load_icon, load_png, Bitmap, IconFormat, ICON_SIZE};
use hypowertools::resolver::{
    alias_of, describes_app, entry_icon_name, icon_candidate_at, line_matches_folded,
    listed_file_paths, replace_dots, IconSearch, SearchStep, ICON_PROBES, THEME_PROBES,
};

/// A file system fixed for the length of a test, counting what is asked of it.
struct FakeFs {
    files: HashSet<String>,
    listing: Option<String>,
    entries: HashMap<String, String>,
    probes: usize,
}

impl FakeFs {
    fn new(files: &[&str], listing: Option<&str>, entries: &[(&str, &str)]) -> FakeFs {
        FakeFs {
            files: files.iter().map(|f| f.to_string()).collect(),
            listing: listing.map(|l| l.to_string()),
            entries: entries.iter().map(|(k, v)| (k.to_string(), v.to_string())).collect(),
            probes: 0,
        }
    }

    fn resolve(&mut self, class: &str, home: Option<&str>) -> Option<String> {
        let mut search = IconSearch::new(class, home);
        loop {
            match search.next_step() {
                SearchStep::Probe(p) => {
                    self.probes += 1;
                    let found = self.files.contains(&p);
                    search.probe_result(found);
                }
                SearchStep::ListEntries => {
                    self.probes += 1;
                    let listing = self.listing.clone();
                    search.entries_listed(listing.as_deref());
                }
                SearchStep::ReadEntry(f) => {
                    self.probes += 1;
                    let content = self.entries.get(&f).cloned();
                    search.entry_read(content.as_deref());
                }
                SearchStep::Found(p) => return Some(p),
                SearchStep::NotFound => return None,
            }
        }
    }

    fn get(&mut self, cache: &mut IconCache<String>, class: &str) -> Option<String> {
        if let Some(hit) = cache.get(class) {
            return hit.clone();
        }
        let found = self.resolve(class, Some("/home/u"));
        cache.insert(class, found.clone());
        found
    }
}

const DISCORD_FLATPAK: &str =
    "/var/lib/flatpak/app/com.discordapp.Discord/current/active/files/discord/discord.png";

#[test]
fn discord_probes_packaged_paths_first() {
    let mut search = IconSearch::new("discord", Some("/home/u"));
    match search.next_step() {
        SearchStep::Probe(p) => assert_eq!(p, DISCORD_FLATPAK),
        _ => panic!("expected a probe"),
    }
    search.probe_result(false);
    search.probe_result(false);
    match search.next_step() {
        SearchStep::Probe(p) => assert_eq!(
            p,
            "/home/u/.local/share/flatpak/app/com.discordapp.Discord/current/active/files/discord/discord.png"
        ),
        _ => panic!("expected a probe"),
    }
    search.probe_result(false);
    assert!(matches!(search.next_step(), SearchStep::ListEntries));
}

#[test]
fn discord_found_in_flatpak_before_any_desktop_entry() {
    let mut fs = FakeFs::new(&[DISCORD_FLATPAK], Some("/usr/share/applications/d.desktop\n"), &[]);
    assert_eq!(fs.resolve("Discord", None), Some(DISCORD_FLATPAK.to_string()));
    assert_eq!(fs.probes, 1);
}

#[test]
fn other_classes_start_with_the_desktop_listing() {
    let search = IconSearch::new("kitty", None);
    assert!(matches!(search.next_step(), SearchStep::ListEntries));
}

#[test]
fn unknown_class_not_found_then_cached() {
    let mut fs = FakeFs::new(&[], Some(""), &[]);
    let mut cache: IconCache<String> = IconCache::new();
    assert_eq!(fs.get(&mut cache, "nosuchapp"), None);
    assert_eq!(fs.probes, 1 + ICON_PROBES);
    let before = fs.probes;
    assert_eq!(fs.get(&mut cache, "nosuchapp"), None);
    assert_eq!(fs.probes, before);
    assert_eq!(cache.len(), 1);
}

#[test]
fn resolving_twice_finds_the_same_path() {
    let icon = "/usr/share/icons/hicolor/48x48/apps/org.gnome.Terminal.svg";
    let mut fs = FakeFs::new(
        &[icon, "/usr/share/icons/hicolor/16x16/apps/org.gnome.Terminal.png"],
        Some("/usr/share/applications/term.desktop\n"),
        &[(
            "/usr/share/applications/term.desktop",
            "[Desktop Entry]\nName=Terminal\nExec=gnome-terminal\nIcon=org.gnome.Terminal\n",
        )],
    );
    let first = fs.resolve("Gnome-terminal", None);
    let second = fs.resolve("Gnome-terminal", None);
    assert_eq!(first, Some(icon.to_string()));
    assert_eq!(first, second);
    let mut cache: IconCache<String> = IconCache::new();
    assert_eq!(fs.get(&mut cache, "Gnome-terminal"), Some(icon.to_string()));
    let probes = fs.probes;
    assert_eq!(fs.get(&mut cache, "Gnome-terminal"), Some(icon.to_string()));
    assert_eq!(fs.probes, probes);
}

#[test]
fn first_matching_entry_decides_the_icon_name() {
    let mut fs = FakeFs::new(
        &["/usr/share/pixmaps/first.png", "/usr/share/pixmaps/second.png"],
        Some("/a/one.desktop\n/a/two.desktop\n/a/three.desktop\n"),
        &[
            ("/a/one.desktop", "Name=Other\nIcon=nope\n"),
            ("/a/two.desktop", "Comment=zed\nExec=/usr/bin/Zed --new\nIcon=first\n"),
            ("/a/three.desktop", "Name=zed\nIcon=second\n"),
        ],
    );
    assert_eq!(fs.resolve("zed", None), Some("/usr/share/pixmaps/first.png".to_string()));
}

#[test]
fn matching_entry_without_icon_uses_lookup_name() {
    let mut fs = FakeFs::new(
        &["/usr/share/pixmaps/com.cursor.Cursor.xpm", "/usr/share/pixmaps/later.png"],
        Some("/a/c.desktop\n/a/d.desktop\n"),
        &[("/a/c.desktop", "Name=Cursor\n"), ("/a/d.desktop", "Name=cursor\nIcon=later\n")],
    );
    assert_eq!(fs.resolve("Cursor", None), Some("/usr/share/pixmaps/com.cursor.Cursor.xpm".to_string()));
}

#[test]
fn failed_listing_falls_back_to_lookup_name() {
    let mut fs = FakeFs::new(&["/home/u/.local/share/icons/scalable/status/foo.svg"], None, &[]);
    assert_eq!(
        fs.resolve("foo", Some("/home/u")),
        Some("/home/u/.local/share/icons/scalable/status/foo.svg".to_string())
    );
}

#[test]
fn literal_path_is_the_last_resort() {
    let mut fs = FakeFs::new(&["/home/u/icons/app.png"], Some(""), &[]);
    assert_eq!(fs.resolve("~/icons/app.png", Some("/home/u")), Some("/home/u/icons/app.png".to_string()));
    assert_eq!(fs.probes, 1 + ICON_PROBES);
}

#[test]
fn candidate_order() {
    assert_eq!(
        icon_candidate_at("Foo.Bar", None, 0),
        "/var/lib/flatpak/exports/share/icons/hicolor/256x256/apps/Foo.Bar.png"
    );
    assert_eq!(
        icon_candidate_at("Foo.Bar", None, 1),
        "/var/lib/flatpak/exports/share/icons/hicolor/256x256/apps/Foo.Bar.svg"
    );
    assert_eq!(
        icon_candidate_at("Foo.Bar", None, 2),
        "/var/lib/flatpak/exports/share/icons/hicolor/256x256/apps/foo.bar.png"
    );
    assert_eq!(
        icon_candidate_at("Foo.Bar", None, 4),
        "/var/lib/flatpak/exports/share/icons/hicolor/256x256/apps/Foo-Bar.png"
    );
    assert_eq!(
        icon_candidate_at("Foo.Bar", None, 6),
        "/var/lib/flatpak/exports/share/icons/hicolor/256x256/apps/foo-bar.png"
    );
    assert_eq!(
        icon_candidate_at("Foo.Bar", None, 8),
        "/var/lib/flatpak/exports/share/icons/hicolor/256x256/apps/com.discordapp.Foo.Bar.png"
    );
    assert_eq!(
        icon_candidate_at("Foo.Bar", None, 11),
        "/var/lib/flatpak/exports/share/icons/hicolor/256x256/apps/Foo.Bar.png.svg"
    );
    assert_eq!(
        icon_candidate_at("x", None, 12),
        "/var/lib/flatpak/exports/share/icons/hicolor/256x256/devices/x.png"
    );
    assert_eq!(
        icon_candidate_at("x", None, 48),
        "/var/lib/flatpak/exports/share/icons/hicolor/128x128/apps/x.png"
    );
    assert_eq!(
        icon_candidate_at("x", Some("/h"), 384),
        "/h/.local/share/flatpak/exports/share/icons/hicolor/256x256/apps/x.png"
    );
    assert_eq!(icon_candidate_at("x", None, THEME_PROBES - 1), "~/.local/share/icons/scalable/status/x.png.svg");
    assert_eq!(icon_candidate_at("x", None, THEME_PROBES), "/usr/share/pixmaps/x.png");
    assert_eq!(icon_candidate_at("x", None, THEME_PROBES + 2), "/usr/share/pixmaps/x.xpm");
    assert_eq!(icon_candidate_at("~", Some("/h"), ICON_PROBES - 1), "/h");
}

#[test]
fn aliases() {
    assert_eq!(alias_of("Cursor"), "com.cursor.Cursor");
    assert_eq!(alias_of("discord"), "com.discordapp.Discord");
    assert_eq!(alias_of("Discord"), "com.discordapp.Discord");
    assert_eq!(alias_of("kitty"), "kitty");
}

#[test]
fn desktop_entry_matching_ignores_case() {
    assert!(describes_app("[Desktop Entry]\nName=DISCORD Canary\n", "com.discordapp.Discord", "discord"));
    assert!(describes_app("Exec=/opt/Firefox/firefox %u\r\n", "firefox", "firefox"));
    assert!(!describes_app("Comment=firefox\nGenericName=firefox\n", "firefox", "firefox"));
    assert!(!describes_app("", "firefox", "firefox"));
    assert!(line_matches_folded("Name=Foo", "name=foo", "foo", "zzz"));
    assert!(!line_matches_folded("name=Foo", "name=foo", "foo", "foo"));
    assert!(!line_matches_folded("Name=Foo", "Name=Foo", "foo", "bar"));
}

#[test]
fn entry_icon_takes_first_icon_line() {
    assert_eq!(entry_icon_name("Name=a\nIcon=one\nIcon=two\n"), Some("one".to_string()));
    assert_eq!(entry_icon_name("Icon=Icon=x"), Some("x".to_string()));
    assert_eq!(entry_icon_name("Name=a\n"), None);
}

#[test]
fn listing_paths_are_expanded() {
    assert_eq!(
        listed_file_paths(Some("/a/x.desktop\n~/b/y.desktop\n"), Some("/home/u")),
        vec!["/a/x.desktop", "/home/u/b/y.desktop"]
    );
    assert_eq!(listed_file_paths(Some("~/b\n"), None), vec!["~/b"]);
    assert!(listed_file_paths(None, Some("/h")).is_empty());
}

#[test]
fn dots_become_dashes() {
    assert_eq!(replace_dots("org.gnome.Foo"), "org-gnome-Foo");
    assert_eq!(replace_dots(""), "");
}

#[test]
fn bitmap_needs_exact_pixel_count() {
    assert!(Bitmap::from_rgba(2, vec![0; 16]).is_some());
    assert!(Bitmap::from_rgba(2, vec![0; 15]).is_none());
    assert!(Bitmap::from_rgba(0, vec![]).is_some());
    let b = Bitmap::from_rgba(3, vec![7; 36]).unwrap();
    assert_eq!(b.size(), 3);
    assert_eq!(b.pixels().len(), 36);
}

fn png_bytes(width: u32, height: u32) -> Vec<u8> {
    let img = image::RgbaImage::from_pixel(width, height, image::Rgba([10, 20, 30, 255]));
    let mut out = std::io::Cursor::new(Vec::new());
    img.write_to(&mut out, image::ImageFormat::Png).unwrap();
    out.into_inner()
}

#[test]
fn raster_icons_come_out_square() {
    let wide = load_png(&png_bytes(40, 10), ICON_SIZE).unwrap();
    assert_eq!(wide.size(), ICON_SIZE);
    assert_eq!(wide.pixels().len(), (4 * ICON_SIZE * ICON_SIZE) as usize);
    let tall = load_png(&png_bytes(3, 50), ICON_SIZE).unwrap();
    assert_eq!(tall.pixels().len(), 4 * 24 * 24);
    assert_eq!(&tall.pixels()[0..4], &[10, 20, 30, 255]);
    assert!(load_png(b"not an image", ICON_SIZE).is_none());
    assert!(load_png(&[], ICON_SIZE).is_none());
}

#[test]
fn icon_formats() {
    assert_eq!(icon_format("/x/a.svg"), IconFormat::Vector);
    assert_eq!(icon_format("/x/a.png"), IconFormat::Raster);
    assert_eq!(icon_format("/x/a.xpm"), IconFormat::Raster);
    assert_eq!(icon_format("svg"), IconFormat::Raster);
}

#[test]
fn icon_loading_succeeds_exactly_when_bytes_decode() {
    let icon = load_icon(&png_bytes(7, 31)).unwrap();
    assert_eq!(icon.size(), 24);
    assert_eq!(icon.pixels().len(), 24 * 24 * 4);
    assert!(load_icon(b"\x89PNG broken").is_none());
    let twice = (load_icon(&png_bytes(5, 5)).is_some(), load_icon(&png_bytes(5, 5)).is_some());
    assert_eq!(twice, (true, true));
}
