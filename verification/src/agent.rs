//! The words that are written about a finished picture: what is asked, over which route, and
//! what is sent along.

use crate::export::{encode_rgb_jpeg, jpeg_bytes, spec_longer};
use crate::export::{longer, resamples};
use crate::raster::RgbImage;
use crate::single::Single;
use crate::text::{after_head, chars_of, has_head, trim, trimmed};
use vstd::prelude::*;
use vstd::string::*;

verus! {

/// Access to the model that looks at pictures.
#[derive(Debug)]
pub struct QwenClient {
    pub api_key: String,
    pub model: String,
}

impl QwenClient {
    /// Access with a key, to the standard model.
    pub fn new(api_key: String) -> (r: QwenClient)
        ensures
            r.api_key@ == api_key@,
            r.model@ == "qwen3-vl-flash"@,
    {
        QwenClient { api_key, model: "qwen3-vl-flash".to_string() }
    }
}

/// A text without a head, however often it begins with it.
pub open spec fn beheaded(s: Seq<char>, head: Seq<char>) -> Seq<char>
    decreases s.len(),
{
    if head.len() > 0 && has_head(s, head) {
        beheaded(s.skip(head.len() as int), head)
    } else {
        s
    }
}

fn behead(v: Vec<char>, head: &str) -> (r: Vec<char>)
    requires
        head@.len() > 0,
    ensures
        r@ == beheaded(v@, head@),
    decreases v@.len(),
{
    match after_head(&v, head) {
        Some(rest) => behead(rest, head),
        None => v,
    }
}

/// A text without the slashes at its end.
pub open spec fn without_slashes(s: Seq<char>) -> Seq<char>
    decreases s.len(),
{
    if s.len() > 0 && s.last() == '/' {
        without_slashes(s.drop_last())
    } else {
        s
    }
}

/// Host and port in the address of a proxy.
pub open spec fn host_and_port(url: Seq<char>) -> Seq<char> {
    without_slashes(
        beheaded(beheaded(beheaded(trimmed(url), "http://"@), "https://"@), "socks5://"@),
    )
}

/// Host and port in the address of a proxy; nothing where it has none.
pub fn proxy_target(url: &str) -> (r: Option<Vec<char>>)
    ensures
        match r {
            Some(v) => v@ == host_and_port(url@) && v@.len() > 0,
            None => host_and_port(url@).len() == 0,
        },
{
    proof {
        reveal_strlit("http://");
        reveal_strlit("https://");
        reveal_strlit("socks5://");
    }
    let a: Vec<char> = behead(trim(&chars_of(url)), "http://");
    let b: Vec<char> = behead(a, "https://");
    let mut v: Vec<char> = behead(b, "socks5://");
    let ghost whole = v@;
    while v.len() > 0 && v[v.len() - 1] == '/'
        invariant
            without_slashes(whole) == without_slashes(v@),
        decreases v@.len(),
    {
        let last: Option<char> = v.pop();
    }
    if v.len() == 0 {
        None
    } else {
        Some(v)
    }
}

/// The first of some values that is there and is not blank, without the space at its ends.
pub open spec fn first_filled(v: Seq<Option<Seq<char>>>) -> Option<Seq<char>>
    decreases v.len(),
{
    if v.len() == 0 {
        None
    } else {
        match v[0] {
            Some(s) => if trimmed(s).len() > 0 {
                Some(trimmed(s))
            } else {
                first_filled(v.skip(1))
            },
            None => first_filled(v.skip(1)),
        }
    }
}

/// Values as their characters.
pub open spec fn texts(v: Seq<Option<String>>) -> Seq<Option<Seq<char>>> {
    Seq::new(
        v.len(),
        |i: int|
            match v[i] {
                Some(s) => Some(s@),
                None => None,
            },
    )
}

/// Picks the proxy among the values of the variables for it, in the order of their precedence.
pub fn detect_proxy(values: &Vec<Option<String>>) -> (r: Option<Vec<char>>)
    ensures
        match r {
            Some(v) => first_filled(texts(values@)) == Some(v@),
            None => first_filled(texts(values@)) is None,
        },
{
    let ghost all = texts(values@);
    assert(all.skip(0) =~= all);
    let mut i: usize = 0;
    while i < values.len()
        invariant
            i <= values@.len(),
            all == texts(values@),
            first_filled(all) == first_filled(all.skip(i as int)),
        decreases values@.len() - i,
    {
        assert(all.skip(i as int)[0] == all[i as int]);
        assert(all.skip(i as int).skip(1) =~= all.skip(i + 1));
        if let Some(s) = &values[i] {
            let t: Vec<char> = trim(&chars_of(s.as_str()));
            if t.len() > 0 {
                return Some(t);
            }
        }
        i = i + 1;
    }
    None
}

/// A way to the service.
#[derive(Clone, Copy, Debug, PartialEq, Eq, Structural)]
pub enum Route {
    Direct,
    Proxy,
}

/// The ways to try, in their order.
pub open spec fn ways(direct_ok: bool, proxy: bool) -> Seq<Route> {
    match (direct_ok, proxy) {
        (true, true) => seq![Route::Direct, Route::Proxy],
        (true, false) => seq![Route::Direct],
        (false, true) => seq![Route::Proxy, Route::Direct],
        (false, false) => seq![Route::Direct],
    }
}

/// The ways to try, in their order: the direct one first where it answers, and last where it
/// does not; the proxy where there is one.
pub fn routes(direct_ok: bool, proxy: bool) -> (r: Vec<Route>)
    ensures
        r@ == ways(direct_ok, proxy),
{
    let mut r: Vec<Route> = Vec::new();
    if direct_ok {
        r.push(Route::Direct);
        if proxy {
            r.push(Route::Proxy);
        }
    } else {
        if proxy {
            r.push(Route::Proxy);
        }
        r.push(Route::Direct);
    }
    r
}

/// What to do after an attempt.
#[derive(Clone, Copy, Debug, PartialEq, Eq, Structural)]
pub enum Attempt {
    /// There is an answer.
    Done,
    /// Try this way next.
    Next(usize),
    /// Every way has failed.
    GiveUp,
}

/// After way number `i` of `count` gave an answer or failed.
pub fn after_attempt(i: usize, count: usize, answered: bool) -> (r: Attempt)
    requires
        i < count,
    ensures
        r == if answered {
            Attempt::Done
        } else if i + 1 < count {
            Attempt::Next((i + 1) as usize)
        } else {
            Attempt::GiveUp
        },
{
    if answered {
        Attempt::Done
    } else if i + 1 < count {
        Attempt::Next(i + 1)
    } else {
        Attempt::GiveUp
    }
}

/// The direct way is always among those to try, the proxy exactly where there is one, and what
/// answers is tried first.
pub proof fn law_direct_way_is_tried(direct_ok: bool, proxy: bool)
    ensures
        ways(direct_ok, proxy).contains(Route::Direct),
        ways(direct_ok, proxy).contains(Route::Proxy) <==> proxy,
        direct_ok ==> ways(direct_ok, proxy)[0] == Route::Direct,
        !direct_ok && proxy ==> ways(direct_ok, proxy)[0] == Route::Proxy,
{
    let r = ways(direct_ok, proxy);
    if direct_ok {
        assert(r[0] == Route::Direct);
        if proxy {
            assert(r[1] == Route::Proxy);
        }
    } else if proxy {
        assert(r[1] == Route::Direct);
        assert(r[0] == Route::Proxy);
    } else {
        assert(r[0] == Route::Direct);
    }
}

/// How the model is told what to write.
pub fn review_instruction() -> (r: &'static str)
    ensures
        r@ == "你是图片编辑，为这张已修好的照片写投稿卡片文案。结合下方「修图流程」与客观指标，用自然、随性、真诚的口吻写点评。只输出 JSON：{\"title\":\"中文作品名(≤8字,有意境)\",\"title_en\":\"English title\",\"comment\":\"中文点评(≤65字,自然口语投稿风;可点到修了什么/画面好在哪/还能怎么更好,不列条目)\",\"comment_en\":\"English review(≤30 words, natural tone)\"}"@,
{
    "你是图片编辑，为这张已修好的照片写投稿卡片文案。结合下方「修图流程」与客观指标，用自然、随性、真诚的口吻写点评。只输出 JSON：{\"title\":\"中文作品名(≤8字,有意境)\",\"title_en\":\"English title\",\"comment\":\"中文点评(≤65字,自然口语投稿风;可点到修了什么/画面好在哪/还能怎么更好,不列条目)\",\"comment_en\":\"English review(≤30 words, natural tone)\"}"
}

/// What the model wrote, as far as its reply holds a text: else an empty object.
pub fn review_content(found: Option<String>) -> (r: String)
    ensures
        match found {
            Some(t) => r@ == t@,
            None => r@ == "{}"@,
        },
{
    match found {
        Some(t) => t,
        None => "{}".to_string(),
    }
}

/// The text behind a key of an object of JSON: nothing where the text is no such object, or has no
/// text behind that key.
pub uninterp spec fn json_text(text: Seq<char>, key: Seq<char>) -> Option<Seq<char>>;

/// Reads a text out of an object of JSON: `serde_json::from_str`, `Value::get` and
/// `Value::as_str`. The contract gives what was read a name.
#[verifier::external_body]
fn read_text(text: &str, key: &str) -> (r: Option<String>)
    ensures
        match r {
            Some(t) => json_text(text@, key@) == Some(t@),
            None => json_text(text@, key@) is None,
        },
{
    let v: serde_json::Value = serde_json::from_str(text).ok()?;
    v.get(key)?.as_str().map(|t| t.to_string())
}

/// A text that was found, and an empty one where none was.
pub fn found_or_empty(found: Option<String>) -> (r: String)
    ensures
        match found {
            Some(t) => r@ == t@,
            None => r@ == Seq::<char>::empty(),
        },
{
    match found {
        Some(t) => t,
        None => {
            proof {
                reveal_strlit("");
            }
            let r: String = "".to_string();
            assert(r@ =~= Seq::<char>::empty());
            r
        },
    }
}

/// What the model's reply holds behind a key: empty where the reply holds no text, or its text no
/// such part.
pub open spec fn text_or_empty(found: Option<String>, key: Seq<char>) -> Seq<char> {
    let text = match found {
        Some(t) => t@,
        None => "{}"@,
    };
    match json_text(text, key) {
        Some(t) => t,
        None => Seq::empty(),
    }
}

/// What is written about a picture, in two languages.
#[derive(Debug)]
pub struct Card {
    pub title: String,
    pub title_en: String,
    pub comment: String,
    pub comment_en: String,
}

/// The card that the text of a reply holds.
pub fn review_card(found: Option<String>) -> (r: Card)
    ensures
        r.title@ == text_or_empty(found, "title"@),
        r.title_en@ == text_or_empty(found, "title_en"@),
        r.comment@ == text_or_empty(found, "comment"@),
        r.comment_en@ == text_or_empty(found, "comment_en"@),
{
    let text: String = review_content(found);
    Card {
        title: found_or_empty(read_text(text.as_str(), "title")),
        title_en: found_or_empty(read_text(text.as_str(), "title_en")),
        comment: found_or_empty(read_text(text.as_str(), "comment")),
        comment_en: found_or_empty(read_text(text.as_str(), "comment_en")),
    }
}

/// What is asked about a picture: the steps of its development and its measurements.
pub fn review_question(process_summary: &str, metrics_json: &str) -> (r: String)
    ensures
        r@ == "本次修图流程: "@ + process_summary@ + "\n成品客观指标: "@ + metrics_json@
            + "\n请先理解画面再命名并点评（只输出 JSON）。"@,
{
    let mut s: String = "本次修图流程: ".to_string();
    s.append(process_summary);
    s.append("\n成品客观指标: ");
    s.append(metrics_json);
    s.append("\n请先理解画面再命名并点评（只输出 JSON）。");
    s
}

/// The address under which a picture is sent along: the picture itself.
pub fn image_url(thumb_b64: &str) -> (r: String)
    ensures
        r@ == "data:image/jpeg;base64,"@ + thumb_b64@,
{
    "data:image/jpeg;base64,".to_string().concat(thumb_b64)
}

/// What is said where every way has failed.
pub fn review_failure(last_err: &str) -> (r: String)
    ensures
        r@ == "Qwen 请求失败（已尝试全部线路）: "@ + last_err@,
{
    "Qwen 请求失败（已尝试全部线路）: ".to_string().concat(last_err)
}

/// The value of a request's header that shows the key.
pub fn authorization(client: &QwenClient) -> (r: String)
    ensures
        r@ == "Bearer "@ + client.api_key@,
{
    "Bearer ".to_string().concat(client.api_key.as_str())
}

/// A side of a small picture: the same share of each side, cut off.
pub open spec fn thumb_side(side: u32, limit: u32, long: u32) -> int {
    let share = Single::spec_from_int(limit as int).over(Single::spec_from_int(long as int));
    Single::spec_from_int(side as int).times(share).truncated(0, u32::MAX as int)
}

/// The box that a small picture is fitted into; nothing where the picture is small already.
pub open spec fn thumb_box(w: u32, h: u32, limit: u32) -> Option<(u32, u32)> {
    let long = spec_longer(w, h);
    if long > limit {
        Some((thumb_side(w, limit, long) as u32, thumb_side(h, limit, long) as u32))
    } else {
        None
    }
}

/// The box that a small picture is fitted into.
pub fn thumb_size(w: u32, h: u32, limit: u32) -> (r: Option<(u32, u32)>)
    ensures
        r == thumb_box(w, h, limit),
{
    let long: u32 = longer(w, h);
    if long > limit {
        let share: Single = Single::from_int(limit as i128).over(Single::from_int(long as i128));
        Some(
            (
                Single::from_int(w as i128).times(share).to_u32(),
                Single::from_int(h as i128).times(share).to_u32(),
            ),
        )
    } else {
        None
    }
}

/// A picture of `w` by `h` pixels that was fitted into a box has `x` by `y` pixels: the side that
/// limits it fills the box, the other is in proportion to within a pixel. A box without room holds
/// a single pixel.
pub open spec fn fitted(w: u32, h: u32, box_w: u32, box_h: u32, x: u32, y: u32) -> bool {
    if box_w == 0 || box_h == 0 {
        x == 1 && y == 1
    } else {
        &&& 0 < x <= box_w
        &&& 0 < y <= box_h
        &&& box_w * h <= box_h * w ==> x == box_w && (y - 1) * w < h * box_w < (y + 1) * w
        &&& box_h * w <= box_w * h ==> y == box_h && (x - 1) * h < w * box_h < (x + 1) * h
    }
}

/// Fits a picture into a box: `image::DynamicImage::resize` with the Lanczos filter. The
/// contract claims the size of the result: as large as the box allows, in the proportions of the
/// picture. Its pixels are not claimed: they rest on sines of a platform's mathematics library.
#[verifier::external_body]
pub(crate) fn fit_into(img: &RgbImage, width: u32, height: u32) -> (r: RgbImage)
    requires
        img.wf(),
        0 < img.width,
        0 < img.height,
        resamples(img.width as int, img.height as int, width as int, height as int),
    ensures
        r.wf(),
        fitted(img.width, img.height, width, height, r.width, r.height),
{
    let src = image::RgbImage::from_raw(img.width, img.height, img.data.clone()).unwrap();
    let all = image::DynamicImage::ImageRgb8(src);
    let out = all.resize(width, height, image::imageops::FilterType::Lanczos3).into_rgb8();
    RgbImage { width: out.width(), height: out.height(), data: out.into_raw() }
}

/// The character for six bits.
pub open spec fn six_bits(v: int) -> char {
    if v < 26 {
        (65 + v) as char
    } else if v < 52 {
        (71 + v) as char
    } else if v < 62 {
        (v - 4) as char
    } else if v == 62 {
        '+'
    } else {
        '/'
    }
}

/// Bytes as text of 64 characters: each three bytes are four characters of six bits, and the
/// last ones are filled up with equal signs.
pub open spec fn base64_text(b: Seq<u8>) -> Seq<char>
    decreases b.len(),
{
    if b.len() == 0 {
        Seq::empty()
    } else if b.len() == 1 {
        seq![six_bits(b[0] as int / 4), six_bits(b[0] as int % 4 * 16), '=', '=']
    } else if b.len() == 2 {
        seq![
            six_bits(b[0] as int / 4),
            six_bits(b[0] as int % 4 * 16 + b[1] as int / 16),
            six_bits(b[1] as int % 16 * 4),
            '=',
        ]
    } else {
        seq![
            six_bits(b[0] as int / 4),
            six_bits(b[0] as int % 4 * 16 + b[1] as int / 16),
            six_bits(b[1] as int % 16 * 4 + b[2] as int / 64),
            six_bits(b[2] as int % 64),
        ] + base64_text(b.skip(3))
    }
}

/// Writes bytes as text: `base64::Engine::encode` of the standard engine. The contract claims
/// the text exactly: the standard alphabet, with padding.
#[verifier::external_body]
fn base64_encode(bytes: &Vec<u8>) -> (r: String)
    ensures
        r@ == base64_text(bytes@),
{
    base64::Engine::encode(&base64::engine::general_purpose::STANDARD, bytes)
}

/// A picture as the text that is sent along, in the quality of a small picture.
pub fn picture_text(img: &RgbImage) -> (r: String)
    requires
        img.wf(),
    ensures
        r@ == base64_text(jpeg_bytes(img.data@, img.width, img.height, 82)),
{
    base64_encode(&encode_rgb_jpeg(img, 82))
}

/// A small copy of a picture as the text that is sent along. A picture within the limit is sent
/// as it is; of a larger one some copy is sent that is within the box for it.
pub fn thumb_b64(img: &RgbImage, limit: u32) -> (r: String)
    requires
        img.wf(),
        thumb_box(img.width, img.height, limit) matches Some(s) ==> 0 < img.width && 0 < img.height
            && resamples(
            img.width as int,
            img.height as int,
            s.0 as int,
            s.1 as int,
        ),
    ensures
        match thumb_box(img.width, img.height, limit) {
            None => r@ == base64_text(jpeg_bytes(img.data@, img.width, img.height, 82)),
            Some(s) => exists|small: RgbImage|
                small.wf() && fitted(img.width, img.height, s.0, s.1, small.width, small.height)
                    && r@ == base64_text(
                    #[trigger] jpeg_bytes(small.data@, small.width, small.height, 82),
                ),
        },
{
    match thumb_size(img.width, img.height, limit) {
        None => picture_text(img),
        Some((w, h)) => {
            let small: RgbImage = fit_into(img, w, h);
            picture_text(&small)
        },
    }
}

} // verus!
