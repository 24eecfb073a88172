use hotmart::decrypt::{Decrypter, KeyError};
use hotmart::hotmart::{Hotmart, MediaPlaylist, Playlist, SessionError};
use hotmart::videos::Hls;
use openssl::symm::{Cipher, Crypter, Mode};

const KEY: &str = "AAECAwQFBgcICQoLDA0ODw==";
const KEY_BYTES: [u8; 16] = [0, 1, 2, 3, 4, 5, 6, 7, 8, 9, 10, 11, 12, 13, 14, 15];
const IV_BYTES: [u8; 16] = [
    0x00, 0x11, 0x22, 0x33, 0x44, 0x55, 0x66, 0x77, 0x88, 0x99, 0xaa, 0xbb, 0xcc, 0xdd, 0xee, 0xff,
];
const MEDIA: &str = "#EXTM3U\n#EXT-X-VERSION:3\n#EXT-X-KEY:METHOD=AES-128,URI=\"k\",IV=0x00112233445566778899aabbccddeeff\n#EXT-X-TARGETDURATION:10\n#EXTINF:10,\na.ts\n#EXTINF:10,\nb.ts\n#EXT-X-ENDLIST\n";

fn encrypt(key: &[u8], iv: &[u8], data: &[u8]) -> Vec<u8> {
    let mut c = Crypter::new(Cipher::aes_128_cbc(), Mode::Encrypt, key, Some(iv)).unwrap();
    c.pad(false);
    let mut out = vec![0; data.len() + 16];
    let n = c.update(data, &mut out).unwrap();
    out.truncate(n);
    out
}

fn session() -> Hotmart {
    let master = "#X:RESOLUTION=1280x720\nmedia.m3u8\n";
    let playlist = Playlist::get_max(master).unwrap();
    Hotmart::get(&playlist, MEDIA, KEY).unwrap()
}

#[test]
fn media_playlist_parts() {
    let m = MediaPlaylist::parse(MEDIA).unwrap();
    assert_eq!(m.info, vec!["#EXTM3U", "#EXT-X-VERSION:3", "#EXT-X-TARGETDURATION:10"]);
    assert_eq!(m.segments.len(), 2);
    assert_eq!(m.segments[0].info, "#EXTINF:10,");
    assert_eq!(m.segments[0].url, "a.ts");
    assert_eq!(m.segments[1].url, "b.ts");
    assert!(m.key.starts_with("#EXT-X-KEY:METHOD=AES-128"));
}

#[test]
fn media_last_key_wins_and_stops_at_end() {
    let text = "#EXT-X-KEY:IV=0x1\n#EXT-X-KEY:IV=0x2\n#EXTINF:1,\nu1\n#EXT-X-ENDLIST\n#EXTINF:2,\nu2\n";
    let m = MediaPlaylist::parse(text).unwrap();
    assert_eq!(m.key, "#EXT-X-KEY:IV=0x2");
    assert!(m.info.is_empty());
    assert_eq!(m.segments.len(), 1);
}

#[test]
fn media_without_key_fails() {
    let text = "#EXTM3U\n#EXTINF:10,\na.ts\n#EXTINF:10,\nb.ts\n#EXT-X-ENDLIST\n";
    assert_eq!(MediaPlaylist::parse(text).err(), Some(SessionError::MissingKey));
}

#[test]
fn media_key_after_end_is_ignored() {
    let text = "#EXTM3U\n#EXTINF:10,\na.ts\n#EXT-X-ENDLIST\n#EXT-X-KEY:METHOD=AES-128,IV=0x00\n";
    assert_eq!(MediaPlaylist::parse(text).err(), Some(SessionError::MissingKey));
}

#[test]
fn media_key_between_segments() {
    let text = "#EXTINF:1,\na\n#EXT-X-KEY:IV=0x9\n#EXTINF:1,\nb\n";
    let m = MediaPlaylist::parse(text).unwrap();
    assert_eq!(m.key, "#EXT-X-KEY:IV=0x9");
    assert!(m.info.is_empty());
    assert_eq!(m.segments.len(), 2);
}

#[test]
fn media_lines_between_segments_are_metadata() {
    let text = "#EXT-X-KEY:IV=0x1\n#EXTINF:1,\na\n#EXT-X-DISCONTINUITY\n#EXTINF:1,\nb\n#EXT-X-ENDLIST\n#EXTINF:1,\nc\n";
    let m = MediaPlaylist::parse(text).unwrap();
    assert_eq!(m.info, vec!["#EXT-X-DISCONTINUITY"]);
    assert_eq!(m.segments.len(), 2);
    assert_eq!(m.segments[1].info, "#EXTINF:1,");
    assert_eq!(m.segments[1].url, "b");
}

#[test]
fn session_adds_plain_key_line() {
    let h = session();
    assert_eq!(h.info().last().unwrap(), "#EXT-X-KEY:METHOD=NONE");
    assert_eq!(h.segments().len(), 2);
    assert_eq!(h.playlist_info(), "#X:RESOLUTION=1280x720");
}

#[test]
fn session_uses_playlist_iv() {
    let h = session();
    let plain: Vec<u8> = (0u8..64).collect();
    let cipher = encrypt(&KEY_BYTES, &IV_BYTES, &plain);
    assert_ne!(cipher, plain);
    assert_eq!(h.decrypt_segment(&cipher).unwrap(), plain);
}

#[test]
fn session_errors() {
    let p = Playlist::get_max("#X:RESOLUTION=1x1\nm\n").unwrap();
    let no_iv = "#EXT-X-KEY:METHOD=AES-128\n#EXTINF:1,\na\n";
    assert_eq!(Hotmart::get(&p, no_iv, KEY).err(), Some(SessionError::MissingIv));
    assert_eq!(
        Hotmart::get(&p, MEDIA, "short").err(),
        Some(SessionError::BadKey(KeyError::Key))
    );
    let bad_iv = "#EXT-X-KEY:METHOD=AES-128,IV=0x0011\n#EXTINF:1,\na\n";
    assert_eq!(
        Hotmart::get(&p, bad_iv, KEY).err(),
        Some(SessionError::BadKey(KeyError::Iv))
    );
}

#[test]
fn decrypt_known_vector() {
    let d = Decrypter::new("K34VFiiu0qar9xWICc9PPA==", "000102030405060708090a0b0c0d0e0f").unwrap();
    let c = hex::decode("7649abac8119b246cee98e9b12e9197d").unwrap();
    assert_eq!(d.decrypt(&c).unwrap(), hex::decode("6bc1bee22e409f96e93d7e117393172a").unwrap());
}

#[test]
fn decrypt_round_trip() {
    let d = Decrypter::new(KEY, "00112233445566778899AABBCCDDEEFF").unwrap();
    let plain: Vec<u8> = (0u8..=255).cycle().take(16 * 9).collect();
    let cipher = encrypt(&KEY_BYTES, &IV_BYTES, &plain);
    assert_eq!(d.decrypt(&cipher).unwrap(), plain);
}

#[test]
fn decrypter_rejects_bad_material() {
    assert_eq!(Decrypter::new("AAECAwQFBgcICQoLDA0O", "00112233445566778899aabbccddeeff").err(), Some(KeyError::Key));
    assert_eq!(Decrypter::new("AAECAwQFBgcICQoLDA0ODxAR", "00112233445566778899aabbccddeeff").err(), Some(KeyError::Key));
    assert_eq!(Decrypter::new("!!!!AwQFBgcICQoLDA0ODw==", "00112233445566778899aabbccddeeff").err(), Some(KeyError::Key));
    assert_eq!(Decrypter::new(KEY, "00112233445566778899aabbccddeeg0").err(), Some(KeyError::Iv));
    assert_eq!(Decrypter::new(KEY, "0x112233445566778899aabbccddeeff").err(), Some(KeyError::Iv));
    assert_eq!(Decrypter::new(KEY, "00112233").err(), Some(KeyError::Iv));
}

#[test]
fn decrypter_accepts_padded_key() {
    let d = Decrypter::new("  AAECAwQFBgcICQoLDA0ODw==\n", "00112233445566778899aabbccddeeff").unwrap();
    let plain: Vec<u8> = (0u8..32).collect();
    let cipher = encrypt(&KEY_BYTES, &IV_BYTES, &plain);
    assert_eq!(d.decrypt(&cipher).unwrap(), plain);
}

#[test]
fn layout_names() {
    assert_eq!(Hls::playlist(), "playlist.m3u8");
    assert_eq!(Hls::video(), "video.m3u8");
    assert_eq!(Hls::segments(), "segs");
    assert_eq!(Hls::segment(0), "segs/0.ts");
    assert_eq!(Hls::segment(1), "segs/1.ts");
    assert_eq!(Hls::segment(1203), "segs/1203.ts");
}

#[test]
fn layout_segment_files_in_order() {
    let hls = Hls::new(session());
    assert_eq!(
        hls.build_segments(),
        vec!["#EXTINF:10,", "segs/0.ts", "#EXTINF:10,", "segs/1.ts"]
    );
}

#[test]
fn layout_playlist_texts() {
    let hls = Hls::new(session());
    assert_eq!(hls.playlist_contents(), "#EXTM3U\n#X:RESOLUTION=1280x720\nvideo.m3u8");
    assert_eq!(
        hls.video_contents(),
        "#EXTM3U\n#EXT-X-VERSION:3\n#EXT-X-TARGETDURATION:10\n#EXT-X-KEY:METHOD=NONE\n#EXTINF:10,\nsegs/0.ts\n#EXTINF:10,\nsegs/1.ts\n#EXT-X-ENDLIST"
    );
}
