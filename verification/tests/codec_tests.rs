use lensing::codec::{read_video, write_video};
use lensing::color::ColorU8;
use lensing::video::{Video, VideoError};

#[test]
fn zero_size_image() {
    let video = Video::new(1, 2, 1).unwrap();

    let bytes = write_video(&video);

    let read_video = read_video(bytes.as_slice()).unwrap();
    assert_eq!(video, read_video);
}

#[test]
fn one_size_image() {
    let mut video = Video::new(1, 2, 1).unwrap();
    video
        .append_frame(&[ColorU8 { r: 1, g: 2, b: 3 }, ColorU8 { r: 4, g: 5, b: 6 }])
        .unwrap();

    let bytes = write_video(&video);

    let read_video = read_video(bytes.as_slice()).unwrap();
    assert_eq!(video, read_video);
}

#[test]
fn empty_video_exact_bytes() {
    let video = Video::new(1, 2, 1).unwrap();
    let bytes = write_video(&video);
    let mut expected = b"simvid".to_vec();
    expected.extend([0, 0, 0, 1]);
    expected.extend([0, 0, 0, 2]);
    expected.extend([0, 0, 0, 0]);
    expected.push(1);
    assert_eq!(bytes, expected);
}

#[test]
fn one_frame_exact_bytes() {
    let mut video = Video::new(1, 2, 1).unwrap();
    video
        .append_frame(&[ColorU8 { r: 1, g: 2, b: 3 }, ColorU8 { r: 4, g: 5, b: 6 }])
        .unwrap();
    let bytes = write_video(&video);
    let mut expected = b"simvid".to_vec();
    expected.extend([0, 0, 0, 1]);
    expected.extend([0, 0, 0, 2]);
    expected.extend([0, 0, 0, 1]);
    expected.push(1);
    expected.extend([1, 2, 3, 4, 5, 6]);
    assert_eq!(bytes, expected);
}

#[test]
fn round_trip_many_frames() {
    let mut video = Video::new(3, 2, 24).unwrap();
    for f in 0..4u8 {
        let frame: Vec<ColorU8> = (0..6u8)
            .map(|i| ColorU8 {
                r: f * 10 + i,
                g: 100 + i,
                b: 200 + i,
            })
            .collect();
        video.append_frame(frame.as_slice()).unwrap();
    }
    let bytes = write_video(&video);
    let back = read_video(bytes.as_slice()).unwrap();
    assert_eq!(video, back);
    assert_eq!(back.frame_count(), 4);
    assert_eq!(back.width(), 3);
    assert_eq!(back.height(), 2);
    assert_eq!(back.fps(), 24);
}

#[test]
fn read_rejects_bad_magic() {
    let video = Video::new(1, 1, 1).unwrap();
    let mut bytes = write_video(&video);
    bytes[0] = b'x';
    assert_eq!(read_video(bytes.as_slice()), Err(VideoError::InvalidFormat));
}

#[test]
fn read_rejects_short_input() {
    assert_eq!(read_video(&[]), Err(VideoError::Truncated));
    assert_eq!(read_video(b"sim"), Err(VideoError::Truncated));
    assert_eq!(read_video(b"simvid"), Err(VideoError::Truncated));
    assert_eq!(
        read_video(b"simvid\x00\x00\x00\x01"),
        Err(VideoError::Truncated)
    );
}

#[test]
fn read_rejects_zero_dimensions() {
    // Zero width.
    let bytes = b"simvid\x00\x00\x00\x00\x00\x00\x00\x02\x00\x00\x00\x00\x01";
    assert_eq!(
        read_video(bytes.as_slice()),
        Err(VideoError::InvalidDimensions)
    );
    // Zero height.
    let bytes = b"simvid\x00\x00\x00\x01\x00\x00\x00\x00\x00\x00\x00\x00\x01";
    assert_eq!(
        read_video(bytes.as_slice()),
        Err(VideoError::InvalidDimensions)
    );
    // Zero frame rate.
    let bytes = b"simvid\x00\x00\x00\x01\x00\x00\x00\x02\x00\x00\x00\x00\x00";
    assert_eq!(
        read_video(bytes.as_slice()),
        Err(VideoError::InvalidDimensions)
    );
}

#[test]
fn read_rejects_truncated_pixels() {
    let mut video = Video::new(1, 2, 1).unwrap();
    video
        .append_frame(&[ColorU8 { r: 1, g: 2, b: 3 }, ColorU8 { r: 4, g: 5, b: 6 }])
        .unwrap();
    let bytes = write_video(&video);
    assert_eq!(
        read_video(&bytes[..bytes.len() - 1]),
        Err(VideoError::Truncated)
    );
}

#[test]
fn read_ignores_trailing_bytes() {
    let video = Video::new(2, 2, 5).unwrap();
    let mut bytes = write_video(&video);
    bytes.push(99);
    let back = read_video(bytes.as_slice()).unwrap();
    assert_eq!(video, back);
}
