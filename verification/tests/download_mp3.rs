use mvis::download_mp3::{
    create_ffmpeg_command, create_mp3_path, create_youtube_dl_command, file_stem, names_extension,
    slugify,
};

#[test]
fn stem_is_the_file_name_without_extension() {
    assert_eq!(file_stem("/tmp/mvis/song.mp4"), "song");
    assert_eq!(file_stem("song.mp4"), "song");
}

#[test]
fn stem_loses_the_dots_inside_the_name() {
    assert_eq!(file_stem("/tmp/My Song.v2.final.mp4"), "My Songv2final");
    assert_eq!(file_stem("a..b"), "a");
}

#[test]
fn stem_looks_only_at_what_follows_the_last_slash() {
    assert_eq!(file_stem("/tmp.d/dir.x/song.mp4"), "song");
    assert_eq!(file_stem("a.b/c.d"), "c");
}

#[test]
fn stem_of_a_hidden_file_is_empty() {
    assert_eq!(file_stem("/tmp/.mp4"), "");
    assert_eq!(file_stem("."), "");
}

#[test]
fn stem_counts_characters_not_bytes() {
    assert_eq!(file_stem("/tmp/é–ü/Ünïcödé söng.mp4"), "Ünïcödé söng");
}

#[test]
fn extension_is_looked_for_in_the_file_name_only() {
    assert!(names_extension("/tmp/song.mp4"));
    assert!(names_extension("song."));
    assert!(names_extension(".mp4"));
    assert!(!names_extension("/tmp/song"));
    assert!(!names_extension("/tmp.d/song"));
    assert!(!names_extension("song.mp4/"));
    assert!(!names_extension(""));
}

#[test]
fn slug_has_no_blanks_no_dot_slash_and_no_ampersand() {
    assert_eq!(slugify("a b./c&d"), "abcd");
    assert_eq!(slugify("/tmp/Tom & Jerry.mp3"), "/tmp/TomJerry.mp3");
    assert_eq!(slugify("./song.mp3"), "song.mp3");
    assert_eq!(slugify(""), "");
    assert_eq!(slugify(" & "), "");
}

#[test]
fn slug_removes_each_dot_slash_once_from_the_left() {
    // Of `..//` the middle `./` goes and a new one is left behind.
    assert_eq!(slugify("..//"), "./");
    assert_eq!(slugify("././x"), "x");
    assert_eq!(slugify("a../b"), "a.b");
}

#[test]
fn slug_removes_blanks_before_dot_slash_and_ampersands_after() {
    // Without the blank the dot meets the slash.
    assert_eq!(slugify(". /x"), "x");
    // The ampersand still stands between them when `./` is looked for.
    assert_eq!(slugify(".&/x"), "./x");
}

#[test]
fn slug_keeps_other_characters() {
    assert_eq!(slugify("/home/ü/.local/share/mvis/tmp/Ünï.mp3"), "/home/ü/.local/share/mvis/tmp/Ünï.mp3");
}

#[test]
fn mp3_path_is_in_the_directory_and_ends_in_mp3() {
    let path = create_mp3_path("/tmp/mvis", &"/tmp/mvis/My Song & More.v2.mp4".to_string());
    assert_eq!(path, std::path::Path::new("/tmp/mvis").join("MySongMorev2.mp3").to_str().unwrap());
}

#[test]
fn mp3_path_differs_from_its_arguments() {
    let directory = "/tmp/mvis";
    let download = "/tmp/mvis/track.mp4".to_string();
    let path = create_mp3_path(directory, &download);
    assert_ne!(path, directory);
    assert_ne!(path, download);
    assert!(path.starts_with(directory));
    assert!(path.ends_with("track.mp3"));
}

#[test]
fn mp3_path_of_a_relative_directory_loses_its_dot_slash() {
    let path = create_mp3_path("./tmp", &"x/one two.mp4".to_string());
    assert_eq!(path, std::path::Path::new("tmp").join("onetwo.mp3").to_str().unwrap());
}

#[test]
fn youtube_dl_command_line() {
    let command = create_youtube_dl_command(&"/tmp/%(title)s.%(ext)s".to_string(), &"https://example.org/v".to_string());
    assert_eq!(command.program, "youtube-dl");
    assert_eq!(
        command.arguments,
        vec!["-o", "/tmp/%(title)s.%(ext)s", "--format", "mp4", "https://example.org/v"]
    );
}

#[test]
fn ffmpeg_command_line() {
    let command = create_ffmpeg_command(&"/tmp/a.mp4".to_string(), &"/tmp/a.mp3".to_string());
    assert_eq!(command.program, "ffmpeg");
    assert_eq!(command.arguments, vec!["-i", "/tmp/a.mp4", "-b:a", "320K", "-vn", "/tmp/a.mp3"]);
}
