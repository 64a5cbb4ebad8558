use apngrs::apng::{canvas_of_header, open_apng};
use apngrs::decoder::{AnimationDecoder, FrameSource};
use apngrs::frame::{DecodeError, Frame, FrameOption, MalformedFrame, Size};
use apngrs::pixel::PremultiplyTable;
use std::cell::Cell;
use std::rc::Rc;

/// A source that hands out a fixed list of results and counts how often it is read.
struct ListSource {
    items: Vec<Option<Result<Frame, MalformedFrame>>>,
    pos: usize,
    reads: Rc<Cell<usize>>,
}

impl FrameSource for ListSource {
    fn next_frame(&mut self) -> Option<Result<Frame, MalformedFrame>> {
        self.reads.set(self.reads.get() + 1);
        let item = if self.pos < self.items.len() { self.items[self.pos].clone() } else { None };
        self.pos += 1;
        item
    }
}

/// An opaque frame of `w * h` pixels, all of one shade, with a delay of `ms`.
fn solid(w: u32, h: u32, shade: u8, ms: u32) -> Frame {
    let mut pixels = Vec::new();
    for _ in 0..w * h {
        pixels.extend_from_slice(&[shade, shade / 2, 255 - shade, 255]);
    }
    Frame { left: 0, top: 0, width: w, height: h, pixels, delay_numer: ms, delay_denom: 1 }
}

fn decoder_over(
    frames: Vec<Frame>,
    size: Size,
) -> (AnimationDecoder<ListSource>, Rc<Cell<usize>>) {
    let reads = Rc::new(Cell::new(0));
    let items = frames.into_iter().map(|f| Some(Ok(f))).collect();
    let source = ListSource { items, pos: 0, reads: reads.clone() };
    (AnimationDecoder::new(source, size).unwrap(), reads)
}

fn three_frames() -> (AnimationDecoder<ListSource>, Rc<Cell<usize>>) {
    let size = Size { width: 2, height: 2 };
    decoder_over(vec![solid(2, 2, 10, 10), solid(2, 2, 20, 20), solid(2, 2, 30, 30)], size)
}

#[test]
fn ensure_twice_decodes_once() {
    let (mut d, reads) = three_frames();
    assert_eq!(d.ensure(1), Ok(true));
    assert_eq!(reads.get(), 2);
    let first = d.frame(1).unwrap().clone();
    assert_eq!(d.ensure(1), Ok(true));
    assert_eq!(reads.get(), 2);
    assert_eq!(d.frame(1).unwrap(), &first);
    assert_eq!(d.frame_count(), 2);
}

#[test]
fn cache_never_shrinks() {
    let (mut d, _) = three_frames();
    let mut out = vec![0u8; 16];
    let mut last = d.frame_count();
    let options = [
        FrameOption::Advance,
        FrameOption::Hold,
        FrameOption::Advance,
        FrameOption::Reset,
        FrameOption::Advance,
        FrameOption::Advance,
        FrameOption::Advance,
    ];
    for option in options {
        d.tick(&mut out, option).unwrap();
        assert!(d.frame_count() >= last);
        last = d.frame_count();
        d.configure(Some(Size { width: 2, height: 2 }));
        assert!(d.frame_count() >= last);
    }
    assert_eq!(d.frame_count(), 3);
}

#[test]
fn hold_keeps_frame_and_index() {
    let (mut d, _) = three_frames();
    let mut out = vec![0u8; 16];
    assert_eq!(d.tick(&mut out, FrameOption::Advance), Ok(10));
    let first = d.tick(&mut out, FrameOption::Hold);
    let served = out.clone();
    for _ in 0..4 {
        assert_eq!(d.tick(&mut out, FrameOption::Hold), first);
        assert_eq!(out, served);
        assert_eq!(d.current_index(), 1);
    }
    assert_eq!(first, Ok(20));
}

#[test]
fn advance_wraps_after_exhaustion() {
    let (mut d, _) = three_frames();
    let mut out = vec![0u8; 16];
    let mut delays = Vec::new();
    for _ in 0..4 {
        delays.push(d.tick(&mut out, FrameOption::Advance).unwrap());
    }
    assert_eq!(delays, vec![10, 20, 30, 10]);
    assert!(d.is_complete());
    assert_eq!(d.tick(&mut out, FrameOption::Advance), Ok(20));
    assert_eq!(out, d.frame(1).unwrap().pixels);
}

#[test]
fn advance_before_exhaustion_points_past_cache() {
    let (mut d, _) = three_frames();
    let mut out = vec![0u8; 16];
    d.tick(&mut out, FrameOption::Advance).unwrap();
    assert_eq!(d.current_index(), 1);
    assert_eq!(d.frame_count(), 1);
    assert!(!d.is_complete());
}

#[test]
fn reset_after_full_decode_reads_nothing() {
    let (mut d, reads) = three_frames();
    let mut out = vec![0u8; 16];
    for _ in 0..4 {
        d.tick(&mut out, FrameOption::Advance).unwrap();
    }
    assert!(d.is_complete());
    let before = reads.get();
    assert_eq!(d.tick(&mut out, FrameOption::Reset), Ok(10));
    assert_eq!(reads.get(), before);
    assert_eq!(out, d.frame(0).unwrap().pixels);
    assert_eq!(d.current_index(), 0);
}

#[test]
fn resize_applies_to_later_frames() {
    let size = Size { width: 4, height: 4 };
    let (mut d, _) = decoder_over(vec![solid(4, 4, 40, 10), solid(4, 4, 80, 20)], size);
    assert_eq!(d.ensure(0), Ok(true));
    d.configure(Some(Size { width: 2, height: 2 }));
    assert_eq!(d.ensure(1), Ok(true));
    let f0 = d.frame(0).unwrap();
    assert_eq!((f0.width, f0.height, f0.pixels.len()), (4, 4, 64));
    let f1 = d.frame(1).unwrap();
    assert_eq!((f1.width, f1.height, f1.pixels.len()), (2, 2, 16));
    assert_eq!((f1.delay_numer, f1.delay_denom), (20, 1));
    // an even field stays even under resampling
    assert_eq!(&f1.pixels[0..4], &[80, 40, 175, 255]);
}

#[test]
fn target_equal_to_canvas_does_not_resample() {
    let size = Size { width: 2, height: 2 };
    let (mut d, _) = decoder_over(vec![solid(2, 2, 40, 10)], size);
    d.configure(Some(size));
    assert_eq!(d.target_size(), Some(size));
    assert_eq!(d.ensure(0), Ok(true));
    assert_eq!(d.frame(0).unwrap().pixels, solid(2, 2, 40, 10).pixels);
}

#[test]
fn buffer_one_byte_short() {
    let (mut d, _) = three_frames();
    let mut out = vec![7u8; 15];
    assert_eq!(
        d.tick(&mut out, FrameOption::Advance),
        Err(DecodeError::BufferTooSmall { required: 16, available: 15 })
    );
    assert_eq!(out, vec![7u8; 15]);
    assert_eq!(d.current_index(), 0);
}

#[test]
fn larger_surface_keeps_its_tail() {
    let (mut d, _) = three_frames();
    let mut out = vec![7u8; 20];
    assert_eq!(d.tick(&mut out, FrameOption::Hold), Ok(10));
    assert_eq!(&out[0..16], &d.frame(0).unwrap().pixels[..]);
    assert_eq!(&out[16..], &[7, 7, 7, 7]);
}

#[test]
fn premultiply_fixed_points() {
    let table = PremultiplyTable::new();
    for c in 0..=255u8 {
        assert_eq!(table.premultiply(c, 255), c);
        assert_eq!(table.premultiply(c, 0), 0);
    }
    let mut px = vec![12, 34, 56, 255, 12, 34, 56, 0];
    table.premultiply_pixels(&mut px);
    assert_eq!(px, vec![12, 34, 56, 255, 0, 0, 0, 0]);
}

#[test]
fn premultiply_rounds_in_gamma_space() {
    let table = PremultiplyTable::new();
    assert_eq!(table.premultiply(255, 128), 186);
    assert_eq!(table.premultiply(100, 100), 65);
    assert_eq!(table.premultiply(200, 50), 95);
    assert_eq!(table.premultiply(1, 1), 0);
    assert_eq!(table.premultiply(128, 254), 128);
    assert_eq!(table.premultiply(255, 1), 21);
    let mut px = vec![255, 100, 200, 128, 9];
    table.premultiply_pixels(&mut px);
    assert_eq!(px, vec![186, 73, 146, 128, 9]);
}

#[test]
fn frames_are_premultiplied_when_cached() {
    let size = Size { width: 1, height: 1 };
    let frame = Frame {
        left: 0,
        top: 0,
        width: 1,
        height: 1,
        pixels: vec![255, 100, 200, 128],
        delay_numer: 1,
        delay_denom: 1,
    };
    let (mut d, _) = decoder_over(vec![frame], size);
    let mut out = vec![0u8; 4];
    assert_eq!(d.tick(&mut out, FrameOption::Hold), Ok(1));
    assert_eq!(out, vec![186, 73, 146, 128]);
}

#[test]
fn two_frame_animation_end_to_end() {
    let size = Size { width: 10, height: 10 };
    let f0 = solid(10, 10, 60, 100);
    let f1 = solid(10, 10, 120, 50);
    let (mut d, _) = decoder_over(vec![f0.clone(), f1.clone()], size);
    let mut out = vec![0u8; 400];
    let mut delays = Vec::new();
    let mut served = Vec::new();
    for _ in 0..3 {
        delays.push(d.tick(&mut out, FrameOption::Advance).unwrap());
        served.push(out.clone());
    }
    assert_eq!(delays, vec![100, 50, 100]);
    assert_eq!(served, vec![f0.pixels.clone(), f1.pixels, f0.pixels]);
}

#[test]
fn decode_error_is_permanent() {
    let reads = Rc::new(Cell::new(0));
    let source = ListSource {
        items: vec![Some(Ok(solid(2, 2, 1, 5))), Some(Err(MalformedFrame)), Some(Ok(solid(2, 2, 2, 5)))],
        pos: 0,
        reads: reads.clone(),
    };
    let mut d = AnimationDecoder::new(source, Size { width: 2, height: 2 }).unwrap();
    let mut out = vec![0u8; 16];
    assert_eq!(d.tick(&mut out, FrameOption::Advance), Ok(5));
    assert_eq!(d.tick(&mut out, FrameOption::Advance), Err(DecodeError::Decode));
    assert_eq!(d.current_index(), 1);
    assert_eq!(d.ensure(1), Err(DecodeError::Decode));
    assert_eq!(reads.get(), 2);
    assert_eq!(d.tick(&mut out, FrameOption::Reset), Ok(5));
}

#[test]
fn wrong_buffer_length_is_malformed() {
    let mut bad = solid(2, 2, 1, 5);
    bad.pixels.pop();
    let (mut d, _) = decoder_over(vec![bad], Size { width: 2, height: 2 });
    assert_eq!(d.ensure(0), Err(DecodeError::Decode));
    assert_eq!(d.frame_count(), 0);
}

#[test]
fn zero_denominator_is_malformed() {
    let mut f = solid(1, 1, 9, 5);
    f.delay_denom = 0;
    let (mut d, _) = decoder_over(vec![f], Size { width: 1, height: 1 });
    let mut out = vec![0u8; 4];
    assert_eq!(d.tick(&mut out, FrameOption::Advance), Err(DecodeError::Decode));
    assert_eq!(d.current_index(), 0);
}

#[test]
fn no_frames_is_empty_animation() {
    let (mut d, _) = decoder_over(vec![], Size { width: 1, height: 1 });
    let mut out = vec![0u8; 4];
    assert_eq!(d.tick(&mut out, FrameOption::Advance), Err(DecodeError::EmptyAnimation));
    assert!(d.is_complete());
}

#[test]
fn empty_canvas_is_rejected() {
    let source = ListSource { items: vec![], pos: 0, reads: Rc::new(Cell::new(0)) };
    assert!(matches!(
        AnimationDecoder::new(source, Size { width: 0, height: 3 }),
        Err(DecodeError::Format)
    ));
}

#[test]
fn ensure_past_the_end() {
    let (mut d, _) = three_frames();
    assert_eq!(d.ensure(5), Ok(false));
    assert_eq!(d.frame_count(), 3);
    assert!(d.is_complete());
    assert_eq!(d.ensure(2), Ok(true));
}

#[test]
fn frame_option_codes() {
    assert_eq!(FrameOption::from_code(0), Some(FrameOption::Hold));
    assert_eq!(FrameOption::from_code(1), Some(FrameOption::Advance));
    assert_eq!(FrameOption::from_code(2), Some(FrameOption::Reset));
    assert_eq!(FrameOption::from_code(3), None);
    assert_eq!(FrameOption::from_code(-1), None);
}

/// An animated PNG of `w * h` opaque pixels, one frame per (shade, delay in ms).
fn encode_apng(w: u32, h: u32, frames: &[(u8, u16)]) -> Vec<u8> {
    let mut bytes = Vec::new();
    {
        let mut encoder = png::Encoder::new(&mut bytes, w, h);
        encoder.set_color(png::ColorType::Rgba);
        encoder.set_depth(png::BitDepth::Eight);
        encoder.set_animated(frames.len() as u32, 0).unwrap();
        let mut writer = encoder.write_header().unwrap();
        for &(shade, ms) in frames {
            writer.set_frame_delay(ms, 1000).unwrap();
            writer.write_image_data(&solid(w, h, shade, 0).pixels).unwrap();
        }
        writer.finish().unwrap();
    }
    bytes
}

#[test]
fn apng_plays_through_image_decoder() {
    let bytes = encode_apng(3, 2, &[(30, 100), (90, 50)]);
    let mut d = open_apng(bytes).unwrap();
    assert_eq!(d.size(), Size { width: 3, height: 2 });
    assert_eq!(d.frame_count(), 0);
    let mut out = vec![0u8; 24];
    assert_eq!(d.tick(&mut out, FrameOption::Advance), Ok(100));
    assert_eq!(out, solid(3, 2, 30, 0).pixels);
    assert_eq!(d.tick(&mut out, FrameOption::Advance), Ok(50));
    assert_eq!(out, solid(3, 2, 90, 0).pixels);
    assert_eq!(d.tick(&mut out, FrameOption::Advance), Ok(100));
    assert!(d.is_complete());
}

#[test]
fn apng_resized_on_decode() {
    let bytes = encode_apng(4, 4, &[(30, 100)]);
    let mut d = open_apng(bytes).unwrap();
    d.configure(Some(Size { width: 2, height: 1 }));
    let mut out = vec![0u8; 8];
    assert_eq!(d.tick(&mut out, FrameOption::Hold), Ok(100));
    assert_eq!(out, solid(2, 1, 30, 0).pixels);
}

#[test]
fn garbage_is_not_an_animation() {
    assert!(matches!(open_apng(vec![1, 2, 3, 4]), Err(DecodeError::Format)));
}

#[test]
fn still_png_is_not_an_animation() {
    let mut bytes = Vec::new();
    {
        let mut encoder = png::Encoder::new(&mut bytes, 1, 1);
        encoder.set_color(png::ColorType::Rgba);
        encoder.set_depth(png::BitDepth::Eight);
        let mut writer = encoder.write_header().unwrap();
        writer.write_image_data(&[1, 2, 3, 255]).unwrap();
        writer.finish().unwrap();
    }
    assert!(matches!(open_apng(bytes), Err(DecodeError::Format)));
}

#[test]
fn error_messages() {
    assert_eq!(DecodeError::Resize.message(), "resampling failed");
    assert_eq!(DecodeError::EmptyAnimation.message(), "missing frames, is this an animated image?");
}

#[test]
fn header_decides_the_canvas() {
    assert_eq!(canvas_of_header(10, 7, true), Ok(Size { width: 10, height: 7 }));
    assert_eq!(canvas_of_header(10, 7, false), Err(DecodeError::Format));
    assert_eq!(canvas_of_header(0, 7, true), Err(DecodeError::Format));
    assert_eq!(canvas_of_header(10, 0, true), Err(DecodeError::Format));
}

#[test]
fn wrap_resets_position_even_when_drawing_fails() {
    let (mut d, _) = three_frames();
    let mut out = vec![0u8; 16];
    for _ in 0..3 {
        d.tick(&mut out, FrameOption::Advance).unwrap();
    }
    assert_eq!(d.current_index(), 3);
    let mut small = vec![1u8; 15];
    assert_eq!(
        d.tick(&mut small, FrameOption::Advance),
        Err(DecodeError::BufferTooSmall { required: 16, available: 15 })
    );
    assert!(d.is_complete());
    assert_eq!(d.current_index(), 0);
    assert_eq!(small, vec![1u8; 15]);
    assert_eq!(d.tick(&mut out, FrameOption::Advance), Ok(10));
    assert_eq!(d.current_index(), 1);
}

#[test]
fn empty_animation_stays_empty() {
    let (mut d, reads) = decoder_over(vec![], Size { width: 1, height: 1 });
    let mut out = vec![5u8; 4];
    assert_eq!(d.tick(&mut out, FrameOption::Hold), Err(DecodeError::EmptyAnimation));
    assert_eq!(d.tick(&mut out, FrameOption::Reset), Err(DecodeError::EmptyAnimation));
    assert_eq!(reads.get(), 1);
    assert_eq!(out, vec![5u8; 4]);
}

#[test]
fn truncated_apng_reports_the_decoder_error() {
    let mut bytes = encode_apng(3, 2, &[(30, 100), (90, 50)]);
    bytes.truncate(bytes.len() - 40);
    let mut d = open_apng(bytes).unwrap();
    assert!(d.frame_source().last_error().is_none());
    let mut out = vec![0u8; 24];
    let mut results = Vec::new();
    for _ in 0..3 {
        results.push(d.tick(&mut out, FrameOption::Advance));
    }
    assert!(results.contains(&Err(DecodeError::Decode)));
    assert!(d.frame_source().last_error().is_some());
}
