use lensing::color::ColorU8;
use lensing::video::{Video, VideoError};

fn gray(v: u8) -> ColorU8 {
    ColorU8 { r: v, g: v, b: v }
}

#[test]
fn new_rejects_zero_dimensions() {
    assert_eq!(Video::new(0, 1, 1), Err(VideoError::InvalidDimensions));
    assert_eq!(Video::new(1, 0, 1), Err(VideoError::InvalidDimensions));
    assert_eq!(Video::new(1, 1, 0), Err(VideoError::InvalidDimensions));
}

#[test]
fn new_video_is_empty() {
    let video = Video::new(4, 3, 30).unwrap();
    assert_eq!(video.width(), 4);
    assert_eq!(video.height(), 3);
    assert_eq!(video.fps(), 30);
    assert_eq!(video.frame_count(), 0);
    assert!(video.get_frame(0).is_none());
}

#[test]
fn append_increases_count_by_one() {
    let mut video = Video::new(2, 2, 1).unwrap();
    for n in 1..=3u32 {
        let before = video.frame_count();
        video.append_frame(&[gray(1), gray(2), gray(3), gray(4)]).unwrap();
        assert_eq!(video.frame_count(), before + 1);
        assert_eq!(video.frame_count(), n);
    }
}

#[test]
fn append_wrong_length_fails_and_leaves_video_unchanged() {
    let mut video = Video::new(2, 2, 1).unwrap();
    video.append_frame(&[gray(1), gray(2), gray(3), gray(4)]).unwrap();
    let before = video.clone();
    assert_eq!(
        video.append_frame(&[gray(9); 3]),
        Err(VideoError::FrameSizeMismatch)
    );
    assert_eq!(
        video.append_frame(&[gray(9); 5]),
        Err(VideoError::FrameSizeMismatch)
    );
    assert_eq!(video.append_frame(&[]), Err(VideoError::FrameSizeMismatch));
    assert_eq!(video, before);
    assert_eq!(video.frame_count(), 1);
}

#[test]
fn get_frame_returns_appended_pixels() {
    let mut video = Video::new(2, 1, 1).unwrap();
    video.append_frame(&[gray(1), gray(2)]).unwrap();
    video.append_frame(&[gray(3), gray(4)]).unwrap();
    assert_eq!(video.get_frame(0).unwrap(), &[gray(1), gray(2)][..]);
    assert_eq!(video.get_frame(1).unwrap(), &[gray(3), gray(4)][..]);
    assert!(video.get_frame(2).is_none());
    assert!(video.get_frame(usize::MAX).is_none());
}

#[test]
fn get_frame_mut_replaces_one_frame_only() {
    let mut video = Video::new(2, 1, 1).unwrap();
    video.append_frame(&[gray(1), gray(2)]).unwrap();
    video.append_frame(&[gray(3), gray(4)]).unwrap();
    {
        let frame = video.get_frame_mut(1).unwrap();
        frame[0] = gray(30);
        frame[1] = gray(40);
    }
    assert_eq!(video.get_frame(0).unwrap(), &[gray(1), gray(2)][..]);
    assert_eq!(video.get_frame(1).unwrap(), &[gray(30), gray(40)][..]);
    assert!(video.get_frame_mut(2).is_none());
}

#[test]
fn remove_frame_shifts_later_frames_down() {
    let mut video = Video::new(1, 1, 1).unwrap();
    video.append_frame(&[gray(1)]).unwrap();
    video.append_frame(&[gray(2)]).unwrap();
    video.append_frame(&[gray(3)]).unwrap();
    let removed = video.remove_frame(1);
    assert_eq!(removed, vec![gray(2)]);
    assert_eq!(video.frame_count(), 2);
    assert_eq!(video.get_frame(0).unwrap(), &[gray(1)][..]);
    assert_eq!(video.get_frame(1).unwrap(), &[gray(3)][..]);
}
