use shiftsrt::args::RuntimeArguments;

fn args_of(path: &str, offset: &str) -> [String; 3] {
    ["prog".to_string(), path.to_string(), offset.to_string()]
}

const EXTENSION_ERROR: &str =
    "The file is not a valid .srt file. Hint: make sure the file extension is correct.";
const OFFSET_ERROR: &str = "Not a valid integer. Input the time offset in milliseconds.";

#[test]
fn build_derives_target_and_offset() {
    let ra = RuntimeArguments::build(args_of("movie.srt", "1500")).unwrap();
    assert_eq!(ra.source_file_path, "movie.srt");
    assert_eq!(ra.target_file_path, "movie-shift.srt");
    assert_eq!(ra.offset, 1500);
}

#[test]
fn build_rejects_wrong_extension() {
    match RuntimeArguments::build(args_of("movie.txt", "0")) {
        Err(m) => assert_eq!(m, EXTENSION_ERROR),
        Ok(_) => panic!("a name not ending in .srt must be rejected"),
    }
    match RuntimeArguments::build(args_of("srt", "0")) {
        Err(m) => assert_eq!(m, EXTENSION_ERROR),
        Ok(_) => panic!("a name too short for the extension must be rejected"),
    }
}

#[test]
fn build_rejects_bad_offset() {
    for bad in ["abc", "", "12.5", "12345678901", "--3", "- 3", "2147483648"] {
        match RuntimeArguments::build(args_of("movie.srt", bad)) {
            Err(m) => assert_eq!(m, OFFSET_ERROR, "offset text: {bad:?}"),
            Ok(_) => panic!("offset text {bad:?} must be rejected"),
        }
    }
}

#[test]
fn build_parses_signed_offsets() {
    let cases = [
        ("1500", 1500),
        ("-500", -500),
        ("+42", 42),
        (" 7 ", 7),
        ("-0", 0),
        ("2147483647", 2147483647),
        ("-2147483648", -2147483648),
    ];
    for (text, value) in cases {
        let ra = RuntimeArguments::build(args_of("movie.srt", text)).unwrap();
        assert_eq!(ra.offset, value, "offset text: {text:?}");
    }
}

#[test]
fn build_keeps_directories_in_target_name() {
    let ra = RuntimeArguments::build(args_of("dir/show.episode.srt", "-250")).unwrap();
    assert_eq!(ra.target_file_path, "dir/show.episode-shift.srt");
}
