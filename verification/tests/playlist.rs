use rplayer::playlist::{Playlist, Track};

fn two_track_playlist() -> Playlist {
    let mut pl = Playlist::default();
    pl.add("a.mp3".to_string());
    pl.add("b.mp3".to_string());
    pl
}

#[test]
fn track_from_path_uses_filename_as_title() {
    let t = Track::from_path("/tmp/example.mp4".to_string());
    assert_eq!(t.title, "example.mp4");
}

#[test]
fn track_from_url_uses_provided_title_or_url() {
    let t = Track::from_url("http://example.com/stream".to_string(), Some("Live".to_string()));
    assert_eq!(t.title, "Live");
    let t2 = Track::from_url("http://example.com/stream".to_string(), None);
    assert_eq!(t2.title, "http://example.com/stream");
}

#[test]
fn playlist_add_and_next_prev_work() {
    let mut pl = two_track_playlist();
    pl.current = Some(0);
    assert_eq!(pl.next().unwrap().path, "b.mp3");
    assert!(pl.prev().is_none());
    pl.current = Some(1);
    assert_eq!(pl.prev().unwrap().path, "a.mp3");
}

#[test]
fn playlist_remove_updates_current_index() {
    let mut pl = two_track_playlist();
    pl.current = Some(1);
    pl.remove(0);
    assert_eq!(pl.tracks.len(), 1);
    assert_eq!(pl.current, Some(0));
}

#[test]
fn playlist_move_up_down_adjusts_selection() {
    let mut pl = two_track_playlist();
    pl.current = Some(1);
    pl.move_up(1);
    assert_eq!(pl.tracks[0].path, "b.mp3");
    assert_eq!(pl.current, Some(0));
    pl.move_down(0);
    assert_eq!(pl.tracks[0].path, "a.mp3");
    assert_eq!(pl.current, Some(1));
}

#[test]
fn import_m3u_handles_relative_paths_and_url_entries() {
    let content = "#EXTM3U\n#EXTINF:-1,Artist - Track\ntrack.mp3\nhttp://example.com/stream.mp3\n";
    let mut pl = Playlist::default();
    pl.import_m3u("/music/lists/test.m3u", content);
    assert_eq!(pl.tracks.len(), 2);
    assert_eq!(pl.tracks[0].title, "track.mp3");
    assert_eq!(pl.tracks[0].path, "/music/lists/track.mp3");
    assert_eq!(pl.tracks[1].title, "http://example.com/stream.mp3");
    assert!(pl.tracks[1].path.starts_with("http://example.com/stream.mp3"));
}

#[test]
fn import_m3u_gives_the_extinf_title_to_the_next_stream() {
    let content = "#EXTM3U\r\n#EXTINF:120,Radio One\r\nhttps://radio.example/live\r\n# a comment\r\n/abs/song.ogg\r\n";
    let mut pl = Playlist::default();
    pl.import_m3u("list.m3u", content);
    assert_eq!(pl.tracks.len(), 2);
    assert_eq!(pl.tracks[0].title, "Radio One");
    assert_eq!(pl.tracks[0].path, "https://radio.example/live");
    assert_eq!(pl.tracks[1].path, "/abs/song.ogg");
    assert_eq!(pl.tracks[1].title, "song.ogg");
}

#[test]
fn import_m3u_drops_the_title_after_a_file_entry() {
    let content = "#EXTINF:-1,Ignored\nlocal.mp3\nhttp://example.com/s\n";
    let mut pl = Playlist::default();
    pl.import_m3u("/x/l.m3u", content);
    assert_eq!(pl.tracks.len(), 2);
    assert_eq!(pl.tracks[0].title, "local.mp3");
    assert_eq!(pl.tracks[1].title, "http://example.com/s");
}

#[test]
fn import_pls_parses_file_and_title_entries() {
    let content = "[playlist]\nFile1=http://example.com/audio.mp3\nTitle1=Remote Audio\nFile2=local.mp3\nTitle2=Local Audio\n";
    let mut pl = Playlist::default();
    pl.import_pls(content);
    assert_eq!(pl.tracks.len(), 2);
    assert_eq!(pl.tracks[0].title, "Remote Audio");
    assert_eq!(pl.tracks[1].title, "local.mp3");
}

#[test]
fn import_pls_orders_entries_by_number() {
    let content = "File3=c.mp3\nFile1=a.mp3\nFile 2 = b.mp3 \nFilex=bad.mp3\nNumberOfEntries=3\n";
    let mut pl = Playlist::default();
    pl.import_pls(content);
    let paths: Vec<&str> = pl.tracks.iter().map(|t| t.path.as_str()).collect();
    assert_eq!(paths, vec!["a.mp3", "b.mp3", "c.mp3"]);
}

#[test]
fn export_m3u_writes_expected_playlist_file() {
    let mut pl = Playlist::default();
    pl.add("song.mp3".to_string());
    pl.tracks[0].title = "Song Title".to_string();
    let content = pl.export_m3u();
    assert!(content.contains("#EXTINF:-1,Song Title"));
    assert!(content.contains("song.mp3"));
    assert_eq!(content, "#EXTM3U\n#EXTINF:-1,Song Title\nsong.mp3");
}

#[test]
fn export_of_empty_playlist_is_the_header() {
    assert_eq!(Playlist::default().export_m3u(), "#EXTM3U");
}

#[test]
fn load_m3u_picks_the_format_by_extension_and_returns_added_paths() {
    let mut pl = Playlist::default();
    pl.add("/old.mp3".to_string());
    let added = pl.load_m3u("/lists/mix.PLS", "File1=/new.mp3\nFile2=/old.mp3\n");
    assert_eq!(added, vec!["/new.mp3".to_string()]);
    let added = pl.load_m3u("/lists/mix.m3u", "one.mp3\n");
    assert_eq!(added, vec!["/lists/one.mp3".to_string()]);
    assert_eq!(pl.tracks.len(), 3);
}

#[test]
fn adding_a_path_twice_keeps_one_track() {
    let mut pl = Playlist::default();
    pl.add("a.mp3".to_string());
    pl.add("a.mp3".to_string());
    pl.add_url("a.mp3".to_string(), Some("other".to_string()));
    assert_eq!(pl.tracks.len(), 1);
    assert_eq!(pl.tracks[0].title, "a.mp3");
}

#[test]
fn add_many_adds_in_order_without_duplicates() {
    let mut pl = Playlist::default();
    pl.add_many(vec!["x.mp3".to_string(), "y.mp3".to_string(), "x.mp3".to_string()]);
    let paths: Vec<&str> = pl.tracks.iter().map(|t| t.path.as_str()).collect();
    assert_eq!(paths, vec!["x.mp3", "y.mp3"]);
}

#[test]
fn set_current_by_path_selects_or_clears() {
    let mut pl = two_track_playlist();
    pl.set_current_by_path("b.mp3");
    assert_eq!(pl.current, Some(1));
    pl.set_current_by_path("zzz.mp3");
    assert_eq!(pl.current, None);
}

#[test]
fn removing_the_selected_track_clears_the_selection() {
    let mut pl = two_track_playlist();
    pl.current = Some(0);
    pl.remove(0);
    assert_eq!(pl.current, None);
    pl.remove(7);
    assert_eq!(pl.tracks.len(), 1);
}

#[test]
fn move_down_undoes_move_up_on_three_tracks() {
    let mut pl = two_track_playlist();
    pl.add("c.mp3".to_string());
    pl.current = Some(2);
    pl.move_up(2);
    assert_eq!(pl.current, Some(1));
    pl.move_down(1);
    assert_eq!(pl.current, Some(2));
    let paths: Vec<&str> = pl.tracks.iter().map(|t| t.path.as_str()).collect();
    assert_eq!(paths, vec!["a.mp3", "b.mp3", "c.mp3"]);
    pl.move_up(0);
    pl.move_down(2);
    let paths: Vec<&str> = pl.tracks.iter().map(|t| t.path.as_str()).collect();
    assert_eq!(paths, vec!["a.mp3", "b.mp3", "c.mp3"]);
}

#[test]
fn clear_empties_the_playlist() {
    let mut pl = two_track_playlist();
    pl.current = Some(1);
    pl.clear();
    assert!(pl.tracks.is_empty());
    assert_eq!(pl.current, None);
}

#[test]
fn next_at_the_end_is_none() {
    let mut pl = two_track_playlist();
    pl.current = Some(1);
    assert!(pl.next().is_none());
    pl.current = None;
    assert!(pl.next().is_none());
    assert!(pl.prev().is_none());
}
