use blight::video::VideoError;

#[test]
fn test_video_error_is_comparable() {
    let e = VideoError::NotInitialised;
    assert_eq!(e, VideoError::NotInitialised);
    assert!(matches!(e, VideoError::NotInitialised));
}
