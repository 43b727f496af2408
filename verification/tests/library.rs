use rplayer::ab_repeat::{AbCommand, AbRepeat};
use rplayer::bug_report::{build_bug_report_target, percent_encode_query_value};
use rplayer::chapters::chapter_title;
use rplayer::color::{parse_hex_rgb, rgb_hex};
use rplayer::config::{
    default_auto_check_updates, default_language, default_sub_font_family, AspectRatio, RepeatMode,
};
use rplayer::cover::{cover_candidates, is_image_file_name};
use rplayer::donation::DonationBanner;
use rplayer::equalizer::{
    delete_selected_preset, fit_bands, save_user_preset, selected_preset, EqFilterType, UserPreset, EQ_BANDS,
};
use rplayer::i18n::{tr, Language};
use rplayer::image_controls::{flip_filter, rotate_ccw_value, rotate_cw_value};
use rplayer::karaoke::{
    cdg_candidates, classify, find_cdg, has_cdg_extension, karaoke_af_chain, KaraokeFileType,
    VOCAL_SUPPRESSION_FILTER,
};
use rplayer::keyed::KeyedVec;
use rplayer::navigation::{
    after_end_of_file, end_of_file, map_ctx_panel, play_next, play_next_choice, play_prev_choice, shuffle_pick,
    toggle_side, CtxPanel, SidePanel, TrackChoice,
};
use rplayer::opensubtitles::{
    common_languages, download_url, is_configured, results_from_entries, search_url, subtitle_file_name, urlenc,
    SubEntry, API_KEY_PLACEHOLDER,
};
use rplayer::player::{
    clamp_volume, format_clock, loaded_title, media_track_from_raw, track_kind_of, tracks_of_kind,
    volume_after_step, TrackKind,
};
use rplayer::playlist::Playlist;
use rplayer::remote::{get_param, route, RemoteAction, RemoteRoute};

#[test]
fn test_opensubtitles_not_configured() {
    assert!(!is_configured(API_KEY_PLACEHOLDER));
}

#[test]
fn a_real_key_counts_as_configured() {
    assert!(is_configured("abc123"));
    assert!(is_configured(""));
}

#[test]
fn colour_written_reads_back() {
    for (r, g, b) in [(0u8, 0u8, 0u8), (255, 255, 255), (1, 16, 171), (200, 9, 128)] {
        let s = rgb_hex(r, g, b);
        assert_eq!(s.len(), 7);
        assert_eq!(parse_hex_rgb(&s), Some((r, g, b)));
    }
    assert_eq!(rgb_hex(255, 0, 171), "#FF00AB");
}

#[test]
fn colour_parsing_trims_and_drops_hashes() {
    assert_eq!(parse_hex_rgb("  ##ffffff \n"), Some((255, 255, 255)));
    assert_eq!(parse_hex_rgb("10a0Ff"), Some((16, 160, 255)));
    assert_eq!(parse_hex_rgb("#FFF"), None);
    assert_eq!(parse_hex_rgb("#GG0000"), None);
    assert_eq!(parse_hex_rgb("#+F+F+F"), Some((15, 15, 15)));
    assert_eq!(parse_hex_rgb(""), None);
}

#[test]
fn repeat_mode_cycles_and_labels() {
    let m = RepeatMode::Off;
    assert_eq!(m.next(), RepeatMode::All);
    assert_eq!(m.next().next(), RepeatMode::One);
    assert_eq!(m.next().next().next(), RepeatMode::Off);
    assert_eq!(RepeatMode::One.icon(), "1");
    assert_eq!(RepeatMode::All.icon(), "ALL");
    assert_eq!(RepeatMode::Off.icon(), "OFF");
    assert_eq!(RepeatMode::One.label(), "Repetir uno");
    assert_eq!(RepeatMode::All.label_lang(Language::En), "Repeat all");
}

#[test]
fn tr_falls_back_to_the_key() {
    assert_eq!(tr(Language::Es, "repeat.none"), "Sin repetición");
    assert_eq!(tr(Language::En, "some.unknown.key"), "some.unknown.key");
}

#[test]
fn defaults_of_the_settings() {
    assert_eq!(default_language(), Language::Es);
    assert!(default_auto_check_updates());
    assert_eq!(default_sub_font_family(), "sans-serif");
}

#[test]
fn aspect_ratio_labels_and_values() {
    assert_eq!(AspectRatio::Ratio16_9.label(), "16:9");
    assert_eq!(AspectRatio::Custom(1.5f64.to_bits()).label(), "Personalizado");
    assert_eq!(AspectRatio::Auto.to_mpv_value(), Some("-1"));
    assert_eq!(AspectRatio::Ratio21_9.to_mpv_value(), Some("21/9"));
    assert_eq!(AspectRatio::Custom(2.0f64.to_bits()).to_mpv_value(), None);
    let all = AspectRatio::all();
    assert_eq!(all.len(), 5);
    assert_eq!(all[1], AspectRatio::Ratio16_9);
}

#[test]
fn ab_repeat_cycle_sets_a_then_b_then_clears() {
    let mut ab: AbRepeat<u64> = AbRepeat::new();
    assert_eq!(ab.cycle(10), AbCommand::SetA(10));
    assert!(!ab.active);
    assert_eq!(ab.cycle(20), AbCommand::SetB(20));
    assert!(ab.active);
    assert_eq!(ab.a, Some(10));
    assert_eq!(ab.b, Some(20));
    assert_eq!(ab.cycle(30), AbCommand::Clear);
    assert!(ab.a.is_none() && ab.b.is_none() && !ab.active);
}

#[test]
fn ab_repeat_set_b_alone_is_not_active() {
    let mut ab: AbRepeat<u64> = AbRepeat::new();
    ab.set_b(5);
    assert!(!ab.active);
    ab.set_a(1);
    assert!(ab.active);
    assert_eq!(ab.clear(), AbCommand::Clear);
}

#[test]
fn rotation_turns_in_quarters() {
    assert_eq!(rotate_cw_value(0), 90);
    assert_eq!(rotate_cw_value(270), 0);
    assert_eq!(rotate_ccw_value(0), 270);
    assert_eq!(rotate_ccw_value(90), 0);
    assert_eq!(rotate_ccw_value(rotate_cw_value(180)), 180);
    assert_eq!(rotate_cw_value(-200), -110);
}

#[test]
fn chapter_titles_default_to_a_number() {
    assert_eq!(chapter_title(0, None), "Capítulo 1");
    assert_eq!(chapter_title(9, Some(String::new())), "Capítulo 10");
    assert_eq!(chapter_title(2, Some("Intro".to_string())), "Intro");
}

#[test]
fn percent_encoding_keeps_unreserved_bytes() {
    assert_eq!(percent_encode_query_value("a-b_c.d~e"), "a-b_c.d~e");
    assert_eq!(percent_encode_query_value("a b&c"), "a%20b%26c");
    assert_eq!(percent_encode_query_value("ñ"), "%C3%B1");
}

#[test]
fn bug_report_target_fills_placeholders_or_appends() {
    assert_eq!(
        build_bug_report_target("https://x.io/new?t={title}&b={body}", "A B", "c"),
        "https://x.io/new?t=A%20B&b=c"
    );
    assert_eq!(build_bug_report_target("https://x.io/new", "T", "B"), "https://x.io/new?title=T&body=B");
    assert_eq!(build_bug_report_target("https://x.io/new?x=1", "T", "B"), "https://x.io/new?x=1&title=T&body=B");
    assert_eq!(build_bug_report_target("mailto:a@b.c", "T", "B"), "mailto:a@b.c?subject=T&body=B");
}

#[test]
fn remote_routes() {
    assert_eq!(route("GET", "/"), RemoteRoute::Page);
    assert_eq!(route("GET", "/status?x=1"), RemoteRoute::Status);
    assert_eq!(route("POST", "/play"), RemoteRoute::Command(RemoteAction::TogglePause));
    assert_eq!(route("POST", "/next"), RemoteRoute::Command(RemoteAction::Next));
    assert_eq!(route("POST", "/seek?t=12.5"), RemoteRoute::Seek("12.5".to_string()));
    assert_eq!(route("POST", "/seek"), RemoteRoute::SeekMissing);
    assert_eq!(route("POST", "/volume?v=80"), RemoteRoute::Command(RemoteAction::SetVolume(80)));
    assert_eq!(route("POST", "/volume?v=999"), RemoteRoute::Command(RemoteAction::SetVolume(150)));
    assert_eq!(route("POST", "/volume?v=-4"), RemoteRoute::Command(RemoteAction::SetVolume(0)));
    assert_eq!(route("POST", "/volume?v=loud"), RemoteRoute::VolumeMissing);
    assert_eq!(route("GET", "/play"), RemoteRoute::NotFound);
    assert_eq!(route("DELETE", "/"), RemoteRoute::NotFound);
}

#[test]
fn query_parameters_are_found_by_name() {
    assert_eq!(get_param("a=1&t=30&b=2", "t"), Some("30".to_string()));
    assert_eq!(get_param("a=1&b=2", "t"), None);
    assert_eq!(get_param("t", "t"), None);
    assert_eq!(get_param("t=&t=4", "t"), Some(String::new()));
}

#[test]
fn karaoke_chain_joins_filters() {
    assert_eq!(karaoke_af_chain(false, None), "");
    assert_eq!(karaoke_af_chain(true, None), "pan=stereo|c0=c0-c1|c1=c1-c0");
    assert_eq!(karaoke_af_chain(false, Some("asetrate=1")), "asetrate=1");
    let both = karaoke_af_chain(true, Some("asetrate=48000*0.8"));
    assert!(both.starts_with("pan=stereo|c0=c0-c1|c1=c1-c0,asetrate="));
    assert_eq!(VOCAL_SUPPRESSION_FILTER, "pan=stereo|c0=c0-c1|c1=c1-c0");
}

#[test]
fn karaoke_files_are_classified() {
    assert_eq!(classify("/m/song.CDG", false, false), KaraokeFileType::Cdg);
    assert_eq!(
        classify("/m/song.mp3", true, false),
        KaraokeFileType::AudioWithCdg("/m/song.cdg".to_string())
    );
    assert_eq!(classify("/m/song.mp3", false, false), KaraokeFileType::Audio);
    assert_eq!(classify("/m/video.mkv", true, true), KaraokeFileType::Audio);
    assert!(has_cdg_extension("/m/a.CdG"));
    assert!(!has_cdg_extension("/m/a.mp3"));
    assert!(!has_cdg_extension("/m/cdg"));
}

#[test]
fn cdg_next_to_the_audio_is_found() {
    assert_eq!(
        cdg_candidates("/m/cancion.mp3"),
        Some(("/m/cancion.cdg".to_string(), "/m/cancion.CDG".to_string()))
    );
    assert_eq!(find_cdg("/m/cancion.mp3", false, true), Some("/m/cancion.CDG".to_string()));
    assert_eq!(find_cdg("/m/cancion.mp3", true, true), Some("/m/cancion.cdg".to_string()));
    assert_eq!(find_cdg("/m/cancion.mp3", false, false), None);
    assert_eq!(cdg_candidates("/"), None);
}

#[test]
fn side_panels_toggle() {
    assert_eq!(toggle_side(SidePanel::Hidden, SidePanel::Playlist), SidePanel::Playlist);
    assert_eq!(toggle_side(SidePanel::Playlist, SidePanel::Playlist), SidePanel::Hidden);
    assert_eq!(toggle_side(SidePanel::History, SidePanel::Playlist), SidePanel::Playlist);
    assert_eq!(map_ctx_panel(CtxPanel::Equalizer), SidePanel::Equalizer);
}

fn three_tracks() -> Playlist {
    let mut pl = Playlist::default();
    pl.add("a".to_string());
    pl.add("b".to_string());
    pl.add("c".to_string());
    pl
}

#[test]
fn shuffle_never_picks_the_current_track() {
    for r in 0..20usize {
        let i = shuffle_pick(3, Some(1), r).unwrap();
        assert!(i < 3 && i != 1);
    }
    assert_eq!(shuffle_pick(1, Some(0), 5), None);
    assert_eq!(shuffle_pick(3, None, 0), Some(1));
}

#[test]
fn next_and_end_of_file_follow_the_repeat_mode() {
    let mut pl = three_tracks();
    pl.current = Some(2);
    assert_eq!(play_next_choice(&mut pl, false, 0), None);
    assert_eq!(after_end_of_file(&mut pl, RepeatMode::All, false, 0), TrackChoice::Play(0));
    assert_eq!(pl.current, Some(0));
    assert_eq!(after_end_of_file(&mut pl, RepeatMode::One, false, 0), TrackChoice::ReplayCurrent);
    assert_eq!(after_end_of_file(&mut pl, RepeatMode::Off, false, 0), TrackChoice::Play(1));
    pl.current = Some(2);
    assert_eq!(after_end_of_file(&mut pl, RepeatMode::Off, false, 0), TrackChoice::Stop);
    assert_eq!(play_prev_choice(&mut pl), Some(1));
    assert_eq!(pl.current, Some(1));
    let mut empty = Playlist::default();
    assert_eq!(after_end_of_file(&mut empty, RepeatMode::All, false, 0), TrackChoice::Stop);
}

#[test]
fn player_values() {
    assert_eq!(format_clock(0), "00:00");
    assert_eq!(format_clock(65), "01:05");
    assert_eq!(format_clock(3725), "01:02:05");
    assert_eq!(format_clock(360000), "100:00:00");
    assert_eq!(loaded_title(Some("/x/y/film.mkv")), "film.mkv");
    assert_eq!(loaded_title(None), "Sin título");
    assert_eq!(clamp_volume(200), 150);
    assert_eq!(clamp_volume(-1), 0);
    assert_eq!(volume_after_step(148, 5), 150);
    assert_eq!(volume_after_step(3, -5), 0);
    assert_eq!(volume_after_step(50, 5), 55);
}

#[test]
fn media_tracks_from_mpv_fields() {
    assert_eq!(track_kind_of("sub"), Some(TrackKind::Sub));
    assert_eq!(track_kind_of("data"), None);
    let t = media_track_from_raw(3, "audio", String::new(), "es".to_string(), true).unwrap();
    assert_eq!(t.title, "Pista 3");
    assert_eq!(t.kind, TrackKind::Audio);
    assert!(media_track_from_raw(3, "other", "x".to_string(), String::new(), false).is_none());
    let tracks = vec![
        media_track_from_raw(1, "video", "v".to_string(), String::new(), true).unwrap(),
        media_track_from_raw(2, "audio", "a1".to_string(), String::new(), true).unwrap(),
        media_track_from_raw(3, "sub", "s".to_string(), String::new(), false).unwrap(),
        media_track_from_raw(4, "audio", "a2".to_string(), String::new(), false).unwrap(),
    ];
    let audio: Vec<i64> = tracks_of_kind(&tracks, TrackKind::Audio).iter().map(|t| t.id).collect();
    assert_eq!(audio, vec![2, 4]);
}

#[test]
fn subtitle_search_requests() {
    assert_eq!(urlenc("El Padrino 2"), "El+Padrino+2");
    assert_eq!(urlenc("a&b"), "a%26b");
    assert_eq!(
        search_url("https://api", "la casa", "es"),
        "https://api/subtitles?query=la+casa&languages=es&per_page=20"
    );
    assert_eq!(download_url("https://api"), "https://api/download");
    assert_eq!(subtitle_file_name(Some("movie.srt".to_string()), "es"), "movie.srt");
    assert_eq!(subtitle_file_name(None, "en"), "subtitle_en.srt");
    assert!(common_languages().iter().any(|(code, _)| *code == "es"));
}

#[test]
fn subtitle_results_keep_entries_with_files() {
    let entries = vec![
        SubEntry {
            language: "es".to_string(),
            release: Some("Rel".to_string()),
            hearing_impaired: Some(true),
            file_ids: vec![7, 8],
            movie_name: Some("Movie".to_string()),
        },
        SubEntry { language: "en".to_string(), release: None, hearing_impaired: None, file_ids: vec![], movie_name: None },
    ];
    let rs = results_from_entries("q", "https://api", &entries);
    assert_eq!(rs.len(), 1);
    assert_eq!(rs[0].file_id, 7);
    assert_eq!(rs[0].title, "Movie");
    assert_eq!(rs[0].release, "Rel");
    assert!(rs[0].hearing_impaired);
    assert_eq!(rs[0].language, "es");
}

#[test]
fn equalizer_user_presets() {
    let mut presets: Vec<UserPreset<u32>> = Vec::new();
    let mut selected = None;
    save_user_preset(&mut presets, &mut selected, "   ", 1);
    assert!(presets.is_empty());
    save_user_preset(&mut presets, &mut selected, " Rock ", 1);
    assert_eq!(presets[0].name, "Rock");
    assert_eq!(selected, Some(0));
    save_user_preset(&mut presets, &mut selected, "Pop", 2);
    assert_eq!(selected, Some(1));
    selected = Some(0);
    save_user_preset(&mut presets, &mut selected, "Pop", 3);
    assert_eq!(presets.len(), 2);
    assert_eq!(presets[1].profile, 3);
    assert_eq!(selected, Some(0));
    assert_eq!(selected_preset(&presets, Some(1)), Some(&3));
    assert_eq!(selected_preset(&presets, Some(5)), None);
    selected = Some(1);
    delete_selected_preset(&mut presets, &mut selected);
    assert_eq!(presets.len(), 1);
    assert_eq!(selected, Some(0));
    delete_selected_preset(&mut presets, &mut selected);
    assert!(presets.is_empty());
    assert_eq!(selected, None);
    assert_eq!(EqFilterType::LowShelf.label(), "Low Shelf");
}

#[test]
fn donation_banner_can_be_dismissed() {
    let mut b = DonationBanner::new(true);
    assert!(!b.is_dismissed());
    b.dismiss();
    assert!(b.is_dismissed());
    assert!(DonationBanner::new(false).is_dismissed());
}

#[test]
fn keyed_vec_reads_back_what_was_set() {
    let mut m: KeyedVec<u64> = KeyedVec::new();
    m.set("a".to_string(), 1);
    m.set("b".to_string(), 2);
    m.set("a".to_string(), 3);
    assert_eq!(m.get("a"), Some(&3));
    assert_eq!(m.pairs().len(), 2);
    assert_eq!(m.take("a"), Some(3));
    assert!(!m.contains("a"));
    m.clear();
    assert!(m.get("b").is_none());
}

#[test]
fn cover_candidates_in_order() {
    let c = cover_candidates("/music/Album/Song.MP3").unwrap();
    assert_eq!(c.len(), 30);
    assert_eq!(c[0], "/music/Album/song.jpg");
    assert_eq!(c[4], "/music/Album/song.bmp");
    assert_eq!(c[5], "/music/Album/cover.jpg");
    assert_eq!(c[29], "/music/Album/artwork.bmp");
    assert!(is_image_file_name("/x/FRONT.JPEG"));
    assert!(!is_image_file_name("/x/notes.txt"));
    assert!(!is_image_file_name("/x/jpg"));
}

#[test]
fn bands_are_fitted_to_six() {
    let mut few = vec![1u32, 2];
    fit_bands(&mut few, 0);
    assert_eq!(few, vec![1, 2, 0, 0, 0, 0]);
    let mut many: Vec<u32> = (1..=9).collect();
    fit_bands(&mut many, 0);
    assert_eq!(many, vec![1, 2, 3, 4, 5, 6]);
    assert_eq!(EQ_BANDS, 6);
}

#[test]
fn flips_become_video_filters() {
    assert_eq!(flip_filter(true, true), "vflip,hflip");
    assert_eq!(flip_filter(true, false), "hflip");
    assert_eq!(flip_filter(false, true), "vflip");
    assert_eq!(flip_filter(false, false), "");
}

#[test]
fn next_then_prev_comes_back() {
    let mut pl = three_tracks();
    pl.current = Some(0);
    assert_eq!(play_next_choice(&mut pl, false, 0), Some(1));
    assert_eq!(play_prev_choice(&mut pl), Some(0));
    assert_eq!(pl.current, Some(0));
    assert_eq!(play_prev_choice(&mut pl), None);
    assert_eq!(pl.current, Some(0));
}

#[test]
fn encoded_values_cannot_split_a_query() {
    for text in ["a b&c=d#e?f", "ñandú / 100%", "+plus+"] {
        let p = percent_encode_query_value(text);
        assert!(p.chars().all(|c| c.is_ascii_alphanumeric() || "-_.~%".contains(c)), "{p}");
        let u = urlenc(text);
        assert!(u.chars().all(|c| c.is_ascii_alphanumeric() || "-_.~%+".contains(c)), "{u}");
    }
    assert_eq!(urlenc("ñ"), "%F1");
    assert_eq!(urlenc("€"), "%20AC");
}

#[test]
fn next_with_the_clock_for_chance() {
    let mut pl = three_tracks();
    pl.current = Some(0);
    assert_eq!(play_next(&mut pl, false), Some(1));
    for _ in 0..10 {
        let before = pl.current;
        let i = play_next(&mut pl, true).unwrap();
        assert!(i < 3 && Some(i) != before);
        assert_eq!(pl.current, Some(i));
    }
    pl.current = Some(2);
    assert_eq!(end_of_file(&mut pl, RepeatMode::All, true), TrackChoice::Play(0));
    assert_eq!(end_of_file(&mut pl, RepeatMode::One, true), TrackChoice::ReplayCurrent);
}

#[test]
fn stems_and_extensions_follow_the_final_dot() {
    assert_eq!(
        cdg_candidates("/m/.hidden"),
        Some(("/m/.hidden.cdg".to_string(), "/m/.hidden.CDG".to_string()))
    );
    assert_eq!(
        cdg_candidates("/m/mix.tar.mp3"),
        Some(("/m/mix.tar.cdg".to_string(), "/m/mix.tar.CDG".to_string()))
    );
    assert!(!has_cdg_extension("/m/.cdg"));
    assert!(has_cdg_extension("/m/a.b.CDG"));
    assert!(!has_cdg_extension("/m/a."));
    assert_eq!(classify("/m/song.MP3", false, true), KaraokeFileType::AudioWithCdg("/m/song.CDG".to_string()));
    let c = cover_candidates("/x/a.").unwrap();
    assert_eq!(c[0], "/x/a.jpg");
}

#[test]
fn next_handles_the_largest_selection() {
    let mut pl = three_tracks();
    pl.current = Some(usize::MAX);
    assert!(pl.next().is_none());
}

#[test]
fn shuffle_accepts_the_largest_selection_that_fits() {
    assert_eq!(shuffle_pick(2, Some(usize::MAX - 1), 0), Some(1));
}
