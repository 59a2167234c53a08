use shortforge::media::{is_image_extension, is_image_extension_name};

#[test]
fn test_is_image_extension_png() {
    assert!(is_image_extension("photo.png"));
}

#[test]
fn test_is_image_extension_jpg() {
    assert!(is_image_extension("photo.jpg"));
}

#[test]
fn test_is_image_extension_jpeg() {
    assert!(is_image_extension("photo.jpeg"));
}

#[test]
fn test_is_image_extension_gif() {
    assert!(is_image_extension("animation.gif"));
}

#[test]
fn test_is_image_extension_webp() {
    assert!(is_image_extension("image.webp"));
}

#[test]
fn test_is_image_extension_bmp() {
    assert!(is_image_extension("bitmap.bmp"));
}

#[test]
fn test_is_image_extension_tiff() {
    assert!(is_image_extension("scan.tiff"));
}

#[test]
fn test_is_image_extension_case_insensitive() {
    assert!(is_image_extension("PHOTO.PNG"));
    assert!(is_image_extension("Image.JPG"));
    assert!(is_image_extension("pic.Jpeg"));
}

#[test]
fn test_is_image_extension_video_not_image() {
    assert!(!is_image_extension("video.mp4"));
    assert!(!is_image_extension("movie.mov"));
    assert!(!is_image_extension("clip.webm"));
    assert!(!is_image_extension("film.avi"));
}

#[test]
fn test_is_image_extension_audio_not_image() {
    assert!(!is_image_extension("song.mp3"));
    assert!(!is_image_extension("track.wav"));
    assert!(!is_image_extension("audio.aac"));
    assert!(!is_image_extension("music.m4a"));
}

#[test]
fn test_is_image_extension_no_extension() {
    assert!(!is_image_extension("noext"));
}

#[test]
fn test_is_image_extension_with_path() {
    assert!(is_image_extension("/Users/test/photos/image.png"));
    assert!(is_image_extension("C:\\Users\\test\\photo.jpg"));
}

#[test]
fn image_extension_names_are_exact() {
    assert!(is_image_extension_name("tiff"));
    assert!(!is_image_extension_name("tif"));
    assert!(!is_image_extension_name("PNG"));
    assert!(!is_image_extension_name(""));
    assert!(!is_image_extension(".png"));
}
