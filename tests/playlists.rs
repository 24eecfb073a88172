use hotmart::hotmart::{resolution, Playlist, ResolveError};

const MASTER: &str = "#EXTM3U\n#EXT-X-STREAM-INF:BANDWIDTH=800000,RESOLUTION=1280x720\nhttp://h/720.m3u8\n#EXT-X-STREAM-INF:BANDWIDTH=2000000,RESOLUTION=1920x1080\nhttp://h/1080.m3u8\n";

#[test]
fn max_picks_largest_resolution() {
    let p = Playlist::get_max(MASTER).unwrap();
    assert_eq!(p.url(), "http://h/1080.m3u8");
    assert_eq!(p.resolution(), "1920x1080");
}

#[test]
fn max_ignores_listing_order() {
    let text = "#EXTM3U\n#X:RESOLUTION=1920x1080\nbig.m3u8\n#X:RESOLUTION=1280x720\nsmall.m3u8";
    let p = Playlist::get_max(text).unwrap();
    assert_eq!(p.url(), "big.m3u8");
}

#[test]
fn max_tie_keeps_first() {
    let text = "#X:RESOLUTION=640x360\na.m3u8\n#Y:RESOLUTION=640x360\nb.m3u8\n";
    let p = Playlist::get_max(text).unwrap();
    assert_eq!(p.url(), "a.m3u8");
    assert_eq!(p.info(), "#X:RESOLUTION=640x360");
}

#[test]
fn max_without_variants_fails() {
    assert_eq!(Playlist::get_max("#EXTM3U\nfoo\n").err(), Some(ResolveError::NoVariant));
}

#[test]
fn trailing_variant_is_dropped() {
    let text = "#X:RESOLUTION=640x360\na.m3u8\n#Y:RESOLUTION=1920x1080";
    let (entries, dropped) = Playlist::get_playlists(text);
    assert_eq!(entries, vec![("#X:RESOLUTION=640x360".to_string(), "a.m3u8".to_string())]);
    assert_eq!(dropped, Some("#Y:RESOLUTION=1920x1080".to_string()));
    let p = Playlist::get_max(text).unwrap();
    assert_eq!(p.url(), "a.m3u8");
}

#[test]
fn playlists_without_dangling_line() {
    let (entries, dropped) = Playlist::get_playlists(MASTER);
    assert_eq!(entries.len(), 2);
    assert_eq!(entries[1].1, "http://h/1080.m3u8");
    assert_eq!(dropped, None);
}

#[test]
fn exact_match_takes_first_containing() {
    let p = Playlist::get(MASTER, "1280x720").unwrap();
    assert_eq!(p.url(), "http://h/720.m3u8");
    let q = Playlist::get(MASTER, "1080").unwrap();
    assert_eq!(q.url(), "http://h/1080.m3u8");
}

#[test]
fn exact_match_missing() {
    assert_eq!(Playlist::get(MASTER, "3840x2160").err(), Some(ResolveError::NoMatch));
}

#[test]
fn all_variants_in_order() {
    let all = Playlist::get_all(MASTER);
    assert_eq!(all.len(), 2);
    assert_eq!(all[0].url(), "http://h/720.m3u8");
    assert_eq!(all[1].resolution(), "1920x1080");
}

#[test]
fn resolution_scores() {
    assert_eq!(resolution("#X:RESOLUTION=1920x1080"), 2073600);
    assert_eq!(resolution("#X:RESOLUTION=+4x5"), 20);
    assert_eq!(resolution("#X:RESOLUTION=abc"), 0);
    assert_eq!(resolution("no equals 3x4"), 0);
    assert_eq!(resolution("a=12"), 0);
    assert_eq!(resolution("a=x7xzx3"), 21);
    assert_eq!(resolution("a=18446744073709551615x2"), 36893488147419103230);
    assert_eq!(resolution("a=18446744073709551616x2x3"), 6);
}

#[test]
fn resolution_text_unknown() {
    let all = Playlist::get_all("#RESOLUTION\nu.m3u8\n");
    assert_eq!(all[0].resolution(), "UNKNOWN");
}

#[test]
fn crlf_lines() {
    let p = Playlist::get_max("#X:RESOLUTION=2x2\r\nu.m3u8\r\n").unwrap();
    assert_eq!(p.url(), "u.m3u8");
    assert_eq!(p.info(), "#X:RESOLUTION=2x2");
}
