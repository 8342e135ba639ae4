//! Files and the network's texts: borders, encoders, camera data, thumbnails, ways, self-test.

use retouch::agent::{
    after_attempt, authorization, detect_proxy, image_url, picture_text, proxy_target,
    review_card, review_content, review_failure, review_instruction, review_question, routes, thumb_b64,
    thumb_size, Attempt, QwenClient, Route,
};
use retouch::export::{
    add_alpha, add_border, build_jpeg_with_metadata, can_resample, downscaled_size, encode_output, find_exif,
    in_rounded_rect, is_jpeg_ext, measure_frame, next_export_stage, paint_frame, sharpen_scale,
    smart_downscale, BorderStyle, ExportConfig, ExportStage, Frame, Framed, OutputFormat, TargetSize,
};
use retouch::raster::RgbImage;
use retouch::selftest::{all_pass, differences, gradient, hue_drift, judge};
use retouch::single::Single;

fn s(x: f32) -> Single {
    Single { bits: x.to_bits() }
}

fn f(x: Single) -> f32 {
    f32::from_bits(x.bits)
}

fn solid(w: u32, h: u32, c: [u8; 3]) -> RgbImage {
    RgbImage { width: w, height: h, data: c.repeat((w * h) as usize) }
}

fn get(img: &RgbImage, x: u32, y: u32) -> [u8; 3] {
    let i = ((y * img.width + x) * 3) as usize;
    [img.data[i], img.data[i + 1], img.data[i + 2]]
}

fn put(img: &mut RgbImage, x: u32, y: u32, c: [u8; 3]) {
    let i = ((y * img.width + x) * 3) as usize;
    img.data[i..i + 3].copy_from_slice(&c);
}


fn ramp(w: u32, h: u32) -> RgbImage {
    let mut img = solid(w, h, [0, 0, 0]);
    for y in 0..h {
        for x in 0..w {
            put(&mut img, x, y, [(x * 7 % 256) as u8, (y * 5 % 256) as u8, ((x + y) % 256) as u8]);
        }
    }
    img
}

fn shared(v: Vec<char>) -> String {
    v.into_iter().collect()
}

#[test]
fn sizes_have_long_edges() {
    let edges: Vec<u32> = TargetSize::all_presets().iter().map(|t| t.long_edge()).collect();
    assert_eq!(edges, vec![0, 1080, 2048, 3000, 4096]);
    assert_eq!(TargetSize::Custom(77).long_edge(), 77);
    assert_eq!(TargetSize::P1080.label(), "1080px (社交)");
    assert_eq!(TargetSize::Original.label(), "原图");
    assert_eq!(OutputFormat::Jpeg.ext(), "jpg");
    assert_eq!(OutputFormat::Png.ext(), "png");
    assert_eq!(OutputFormat::Png.label(), "PNG");
    let cfg = ExportConfig::default();
    assert_eq!((cfg.dpi, cfg.quality), (300, 95));
    assert!(cfg.smart_sharpen);
}

/// The stages of an export keep their order; healing and the change of size can be left out.
#[test]
fn stages_of_an_export_come_in_order() {
    let list = |spots: bool, limit: u32| {
        let mut v = vec![ExportStage::Develop];
        while v[v.len() - 1] != ExportStage::End {
            let next = next_export_stage(v[v.len() - 1], spots, limit);
            v.push(next);
        }
        v
    };
    let all = [
        ExportStage::Develop,
        ExportStage::Geometry,
        ExportStage::Heal,
        ExportStage::Resize,
        ExportStage::Sharpen,
        ExportStage::Border,
        ExportStage::Encode,
        ExportStage::End,
    ];
    assert_eq!(list(true, 1080), all.to_vec());
    let without = |a: ExportStage, b: ExportStage| -> Vec<ExportStage> {
        all.iter().copied().filter(|x| *x != a && *x != b).collect()
    };
    assert_eq!(list(false, 1080), without(ExportStage::Heal, ExportStage::Heal));
    assert_eq!(list(true, 0), without(ExportStage::Resize, ExportStage::Resize));
    assert_eq!(list(false, 0), without(ExportStage::Heal, ExportStage::Resize));
}

/// Sides that the outside resampling cannot count are refused.
#[test]
fn huge_pictures_are_not_resampled() {
    assert!(can_resample(4000, 3000, 1080, 810));
    assert!(can_resample(0x10_0000, 1, 0x10_0000, 1));
    assert!(!can_resample(0x10_0001, 1, 1, 1));
    assert!(!can_resample(1, 0x10_0001, 1, 1));
    assert!(!can_resample(10, 10, 0x10_0001, 1));
}

#[test]
fn large_pictures_are_scaled_down() {
    assert_eq!(downscaled_size(4000, 3000, 1080), Some((1080, 810)));
    assert_eq!(downscaled_size(800, 600, 1080), None);
    assert_eq!(downscaled_size(1080, 600, 1080), None);
    let img = ramp(64, 32);
    let small = smart_downscale(&img, 16);
    assert_eq!((small.width, small.height), (16, 8));
    assert_eq!(small.data.len(), 16 * 8 * 3);
    let same = smart_downscale(&img, 64);
    assert_eq!(same.data, img.data);
    let flat = smart_downscale(&solid(40, 40, [90, 120, 150]), 10);
    assert_eq!(get(&flat, 5, 5), [90, 120, 150]);
}

#[test]
fn sharpening_follows_scaling() {
    let cfg = ExportConfig::default();
    assert_eq!(sharpen_scale(&cfg, 4000, 3000, 1000, 750).map(f), Some(0.25));
    assert_eq!(sharpen_scale(&cfg, 1000, 750, 1000, 750), None);
    assert_eq!(sharpen_scale(&cfg, 4000, 3000, 399, 300), None);
    let off = ExportConfig { smart_sharpen: false, ..cfg };
    assert_eq!(sharpen_scale(&off, 4000, 3000, 1000, 750), None);
}

#[test]
fn frames_are_measured() {
    let white = BorderStyle::White { width_ratio: s(0.05) };
    let f1 = measure_frame(&white, 200, 100, None).unwrap();
    assert_eq!((f1.side, f1.bottom, f1.round), (5, 5, 0));
    assert!(!f1.shadow);
    let polaroid = BorderStyle::Polaroid { width_ratio: s(0.1) };
    let f2 = measure_frame(&polaroid, 200, 100, None).unwrap();
    assert_eq!((f2.side, f2.bottom), (10, 18));
    assert!(f2.shadow);
    assert!(measure_frame(&BorderStyle::Plain, 200, 100, None).is_none());
    assert_eq!(f(BorderStyle::Plain.bottom_factor()), 0.0);
    assert_eq!(f(polaroid.bottom_factor()), 1.8);
}

/// Inside the border a picture is as it was.
#[test]
fn borders_keep_the_picture() {
    let img = ramp(40, 30);
    let style = BorderStyle::White { width_ratio: s(0.1) };
    let out = add_border(&img, &style, None);
    assert!(out.alpha);
    assert_eq!((out.image.width, out.image.height), (46, 36));
    for y in 0..30 {
        for x in 0..40 {
            assert_eq!(get(&out.image, x + 3, y + 3), get(&img, x, y));
        }
    }
    assert_eq!(get(&out.image, 0, 0), [255, 255, 255]);
    assert_eq!(get(&out.image, 45, 35), [255, 255, 255]);
    let plain = add_border(&img, &BorderStyle::Plain, Some(s(0.2)));
    assert!(!plain.alpha);
    assert_eq!(plain.image.data, img.data);
}

#[test]
fn corners_are_rounded() {
    let img = solid(20, 20, [10, 20, 30]);
    let frame = Frame { side: 4, bottom: 4, shadow: false, round: 6 };
    let out = paint_frame(&img, &frame);
    assert_eq!(get(&out, 4, 4), [255, 255, 255]);
    assert_eq!(get(&out, 14, 14), [10, 20, 30]);
    assert_eq!(get(&out, 4, 14), [10, 20, 30]);
    assert!(!in_rounded_rect(0, 0, 6, 20, 20, true, true));
    assert!(in_rounded_rect(5, 5, 6, 20, 20, true, true));
}

#[test]
fn polaroids_have_a_shadow() {
    let img = solid(30, 30, [10, 20, 30]);
    let out = paint_frame(&img, &Frame { side: 2, bottom: 25, shadow: true, round: 0 });
    let last = out.height - 1;
    assert_eq!(get(&out, 5, last - 10), [240, 240, 240]);
    assert_eq!(get(&out, 5, last), [255, 255, 255]);
    assert_eq!(get(&out, 5, 33), [255, 255, 255]);
    let flat = paint_frame(&img, &Frame { side: 2, bottom: 25, shadow: false, round: 0 });
    assert_eq!(get(&flat, 5, last - 10), [255, 255, 255]);
}

fn framed(img: RgbImage, alpha: bool) -> Framed {
    Framed { image: img, alpha }
}

#[test]
fn jpeg_output_decodes() {
    let img = solid(24, 16, [200, 100, 50]);
    let bytes = encode_output(&framed(img, false), &ExportConfig::default(), None);
    assert_eq!(&bytes[0..4], &[0xff, 0xd8, 0xff, 0xe0]);
    let back = image::load_from_memory(&bytes).unwrap().to_rgb8();
    assert_eq!(back.dimensions(), (24, 16));
    let p = back.get_pixel(12, 8).0;
    for (a, b) in p.iter().zip([200i32, 100, 50]) {
        assert!((*a as i32 - b).abs() <= 6, "{:?}", p);
    }
}

#[test]
fn png_output_is_lossless() {
    let cfg = ExportConfig { output_format: OutputFormat::Png, ..ExportConfig::default() };
    let img = ramp(17, 9);
    let bytes = encode_output(&framed(img.clone(), false), &cfg, None);
    let back = image::load_from_memory(&bytes).unwrap();
    assert_eq!(back.to_rgb8().into_raw(), img.data);
    let with_alpha = encode_output(&framed(img.clone(), true), &cfg, None);
    let four = image::load_from_memory(&with_alpha).unwrap().to_rgba8();
    assert_eq!(four.into_raw(), add_alpha(&img.data));
    assert_eq!(add_alpha(&vec![1, 2, 3]), vec![1, 2, 3, 255]);
}

/// The density of a file is the one that was asked for, in dots per inch.
#[test]
fn density_is_written() {
    let jpeg = vec![0xff, 0xd8, 0xff, 0xd9];
    let out = build_jpeg_with_metadata(&jpeg, None, 300);
    assert_eq!(&out[0..11], &[0xff, 0xd8, 0xff, 0xe0, 0, 16, b'J', b'F', b'I', b'F', 0]);
    assert_eq!(out[13], 1);
    assert_eq!(&out[14..18], &[1, 44, 1, 44]);
    assert_eq!(&out[out.len() - 2..], &[0xff, 0xd9]);
    let huge = build_jpeg_with_metadata(&jpeg, None, 1_000_000);
    assert_eq!(&huge[14..18], &[255, 255, 255, 255]);
}

#[test]
fn camera_data_reads_back() {
    let mut exif = b"Exif\0\0".to_vec();
    exif.extend([1u8, 2, 3, 4, 5]);
    let cfg = ExportConfig::default();
    let bytes = encode_output(&framed(solid(8, 8, [9, 9, 9]), false), &cfg, Some(&exif));
    assert_eq!(find_exif(&bytes), Some(exif));
    assert!(image::load_from_memory(&bytes).is_ok());
    let bare = encode_output(&framed(solid(8, 8, [9, 9, 9]), false), &cfg, None);
    assert_eq!(find_exif(&bare), None);
    assert_eq!(find_exif(&vec![1, 2, 3]), None);
    assert_eq!(find_exif(&Vec::new()), None);
}

#[test]
fn jpeg_extensions_are_known() {
    assert!(is_jpeg_ext("jpg") && is_jpeg_ext("JPEG") && is_jpeg_ext("Jpg"));
    assert!(!is_jpeg_ext("png") && !is_jpeg_ext("") && !is_jpeg_ext("jpgx"));
}

#[test]
fn thumbnails_are_boxed() {
    assert_eq!(thumb_size(1024, 512, 512), Some((512, 256)));
    assert_eq!(thumb_size(512, 512, 512), None);
    assert_eq!(thumb_size(100, 4000, 512), Some((12, 512)));
}

fn decoded(text: &str) -> image::RgbImage {
    let bytes =
        base64::Engine::decode(&base64::engine::general_purpose::STANDARD, text).unwrap();
    image::load_from_memory(&bytes).unwrap().to_rgb8()
}

#[test]
fn thumbnails_are_small_jpegs() {
    let img = ramp(80, 40);
    let whole = decoded(&thumb_b64(&img, 512));
    assert_eq!(whole.dimensions(), (80, 40));
    assert_eq!(thumb_b64(&img, 512), picture_text(&img));
    let small = decoded(&thumb_b64(&img, 32));
    assert_eq!(small.dimensions(), (32, 16));
}

#[test]
fn picture_text_is_base64() {
    let text = picture_text(&solid(8, 8, [1, 2, 3]));
    assert!(text.starts_with("/9j/"));
    assert_eq!(text.len() % 4, 0);
    assert_eq!(image_url("abc"), "data:image/jpeg;base64,abc");
}

#[test]
fn proxies_are_taken_apart() {
    let host = |u: &str| proxy_target(u).map(shared);
    assert_eq!(host(" http://127.0.0.1:7890/ "), Some("127.0.0.1:7890".to_string()));
    assert_eq!(host("https://proxy:8080"), Some("proxy:8080".to_string()));
    assert_eq!(host("socks5://h:1"), Some("h:1".to_string()));
    assert_eq!(host("h:1//"), Some("h:1".to_string()));
    assert_eq!(host("http://"), None);
    assert_eq!(host("  "), None);
}

#[test]
fn the_first_filled_value_is_taken() {
    let some = |t: &str| Some(t.to_string());
    let v = vec![None, some("  "), some(" http://a:1 "), some("http://b:2")];
    assert_eq!(detect_proxy(&v).map(shared), some("http://a:1"));
    assert_eq!(detect_proxy(&vec![None, some("")]), None);
    assert_eq!(detect_proxy(&Vec::new()), None);
}

#[test]
fn what_answers_is_tried_first() {
    assert_eq!(routes(true, true), vec![Route::Direct, Route::Proxy]);
    assert_eq!(routes(true, false), vec![Route::Direct]);
    assert_eq!(routes(false, true), vec![Route::Proxy, Route::Direct]);
    assert_eq!(routes(false, false), vec![Route::Direct]);
}

#[test]
fn attempts_go_on_until_an_answer() {
    assert_eq!(after_attempt(0, 2, true), Attempt::Done);
    assert_eq!(after_attempt(0, 2, false), Attempt::Next(1));
    assert_eq!(after_attempt(1, 2, false), Attempt::GiveUp);
}

#[test]
fn review_texts() {
    let c = QwenClient::new("k".to_string());
    assert_eq!(c.model, "qwen3-vl-flash");
    assert_eq!(authorization(&c), "Bearer k");
    assert_eq!(
        review_question("A", "{}"),
        "本次修图流程: A\n成品客观指标: {}\n请先理解画面再命名并点评（只输出 JSON）。"
    );
    assert!(review_instruction().starts_with("你是图片编辑"));
    let card = review_card(Some("{\"title\":\"山\",\"title_en\":\"Hill\",\"comment\":5}".to_string()));
    assert_eq!((card.title.as_str(), card.title_en.as_str()), ("山", "Hill"));
    assert_eq!((card.comment.as_str(), card.comment_en.as_str()), ("", ""));
    assert_eq!(review_card(None).title, "");
    assert_eq!(review_card(Some("no object".to_string())).title, "");
    assert_eq!(review_content(None), "{}");
    assert_eq!(review_content(Some("x".to_string())), "x");
    assert_eq!(review_failure("down"), "Qwen 请求失败（已尝试全部线路）: down");
}

#[test]
fn gradients_are_compared() {
    let g = gradient();
    assert_eq!(get(&g, 3, 200), [3, 200, 101]);
    assert_eq!(differences(&g, &g), (0, 0));
    let mut h = gradient();
    put(&mut h, 0, 0, [5, 0, 9]);
    assert_eq!(differences(&g, &h), (9, 14));
}

#[test]
fn verdicts_are_given() {
    let g = gradient();
    let red = ((255, 40, 40), (255, 200, 200));
    let fell = (s(0.2), s(0.1));
    let near = (s(358.0), s(2.0));
    let good = judge(&g, &g, 151, red.0, red.1, fell, near);
    assert!(all_pass(&good));
    let dark = judge(&g, &g, 150, red.0, red.1, fell, near);
    assert!(!dark.exposure && !all_pass(&dark));
    let vivid = judge(&g, &g, 151, red.1, red.0, fell, near);
    assert!(!vivid.tone_map);
    let shifted = judge(&g, &g, 151, red.0, red.1, fell, (s(20.0), s(25.0)));
    assert!(!shifted.taming);
    let kept = judge(&g, &g, 151, red.0, red.1, (s(0.2), s(0.2)), near);
    assert!(!kept.taming);
    assert_eq!(hue_drift(near.0, near.1), s(4.0));
    assert_eq!(hue_drift(s(20.0), s(50.0)), s(30.0));
    let mut far = gradient();
    put(&mut far, 0, 0, [9, 0, 0]);
    let off = judge(&g, &far, 151, red.0, red.1, fell, near);
    assert!(!off.round_trip);
}
