use vstd::prelude::*;
use vstd::string::StringExecFns;
use base64::Engine;
use crate::palette::Palette;
use crate::rule::Rule;

verus! {

/// The PNG encoding of an RGBA byte buffer with the given dimensions.
/// The result of image::write_buffer_with_format depends on the buffer
/// and the dimensions alone.
pub uninterp spec fn png_bytes(data: Seq<u8>, width: int, height: int) -> Seq<u8>;

/// The base64 text of a byte string. The result of base64's standard
/// engine depends on the bytes alone.
pub uninterp spec fn base64_text(data: Seq<u8>) -> Seq<char>;

/// Relies on image::write_buffer_with_format with the PNG format,
/// writing into an in-memory buffer: on success the buffer holds the
/// encoding, a function of the pixel data and dimensions alone. The
/// encoder demands a buffer of exactly four bytes per pixel.
#[verifier::external_body]
fn png_encode(data: &Vec<u8>, width: u32, height: u32) -> (r: Option<Vec<u8>>)
    requires
        data@.len() == 4 * width * height,
    ensures
        match r {
            Some(bytes) => bytes@ == png_bytes(data@, width as int, height as int),
            None => true,
        },
{
    let mut output: Vec<u8> = Vec::new();
    let mut cursor = std::io::Cursor::new(&mut output);
    match image::write_buffer_with_format(
        &mut cursor,
        data,
        width,
        height,
        image::ColorType::Rgba8,
        image::ImageFormat::Png,
    ) {
        Ok(()) => Some(output),
        Err(_) => None,
    }
}

/// Relies on base64::engine::Engine::encode with the standard padded
/// alphabet: the text depends on the bytes alone, four characters for
/// every started group of three bytes. The encoder panics when the
/// output length overflows a usize; the bound on the input keeps that
/// out.
#[verifier::external_body]
fn base64_encode(data: &Vec<u8>) -> (r: String)
    requires
        data@.len() <= usize::MAX / 4,
    ensures
        r@ == base64_text(data@),
        r@.len() == 4 * ((data@.len() + 2) / 3),
{
    base64::engine::general_purpose::STANDARD.encode(data)
}

/// The scheme prefix of an exported image.
pub open spec fn data_url_prefix() -> Seq<char> {
    "data:image/png;base64,"@
}

/// Encodes an RGBA buffer as a PNG data URL: the fixed prefix followed
/// by the base64 text of the PNG bytes. Where the encoder refuses the
/// buffer, the prefix alone comes back.
pub fn texture_to_png_base64(data: Vec<u8>, width: usize, height: usize) -> (r: String)
    requires
        width <= u32::MAX,
        height <= u32::MAX,
        data@.len() == 4 * width * height,
    ensures
        r@ == data_url_prefix() + base64_text(png_bytes(data@, width as int, height as int)) || r@
            == data_url_prefix(),
{
    let mut out = String::from_str("data:image/png;base64,");
    match png_encode(&data, width as u32, height as u32) {
        Some(bytes) => {
            if bytes.len() <= usize::MAX / 4 {
                let encoded = base64_encode(&bytes);
                out.append(encoded.as_str());
            }
        },
        None => {
        },
    }
    out
}

/// The persisted shape of the rule list: each rule's condition source
/// and action source, in storage order.
pub fn export_rules(rules: &Vec<Rule>) -> (r: Vec<(String, String)>)
    ensures
        r@.len() == rules@.len(),
        forall|i: int|
            0 <= i < r@.len() ==> (#[trigger] r@[i]).0@ == rules@[i].condition_src() && r@[i].1@
                == rules@[i].action_src(),
{
    let n = rules.len();
    let mut out: Vec<(String, String)> = Vec::new();
    for i in 0..n
        invariant
            n == rules@.len(),
            out@.len() == i,
            forall|k: int|
                0 <= k < i ==> (#[trigger] out@[k]).0@ == rules@[k].condition_src() && out@[k].1@
                    == rules@[k].action_src(),
    {
        let rule = &rules[i];
        let condition = String::from_str(rule.original_condition());
        let action = String::from_str(rule.original_action());
        out.push((condition, action));
    }
    out
}

/// The source pairs a persisted list keeps: in order, exactly those
/// whose condition compiles as a pattern.
pub open spec fn kept_sources(pairs: Seq<(String, String)>) -> Seq<(Seq<char>, Seq<char>)>
    decreases pairs.len(),
{
    if pairs.len() == 0 {
        Seq::empty()
    } else if crate::rule::regex_compiles(pairs.last().0@) {
        kept_sources(pairs.drop_last()).push((pairs.last().0@, pairs.last().1@))
    } else {
        kept_sources(pairs.drop_last())
    }
}

/// Rebuilds a rule list from persisted (condition, action) pairs: the
/// result holds, in order, exactly the pairs whose condition compiles,
/// each rebuilt rule carrying its pair's sources. A pair whose
/// condition does not compile costs that one rule only.
pub fn import_rules(pairs: &Vec<(String, String)>) -> (r: Vec<Rule>)
    ensures
        r@.len() == kept_sources(pairs@).len(),
        forall|k: int|
            0 <= k < r@.len() ==> (#[trigger] r@[k]).condition_src() == kept_sources(pairs@)[k].0
                && r@[k].action_src() == kept_sources(pairs@)[k].1,
        forall|k: int| 0 <= k < r@.len() ==> (#[trigger] r@[k]).wf(),
{
    let n = pairs.len();
    let mut out: Vec<Rule> = Vec::new();
    for i in 0..n
        invariant
            n == pairs@.len(),
            out@.len() == kept_sources(pairs@.take(i as int)).len(),
            forall|k: int|
                0 <= k < out@.len() ==> (#[trigger] out@[k]).condition_src() == kept_sources(
                    pairs@.take(i as int),
                )[k].0 && out@[k].action_src() == kept_sources(pairs@.take(i as int))[k].1,
            forall|k: int| 0 <= k < out@.len() ==> (#[trigger] out@[k]).wf(),
    {
        let pair = &pairs[i];
        proof {
            assert(pairs@.take(i + 1).drop_last() =~= pairs@.take(i as int));
            assert(pairs@.take(i + 1).last() == pairs@[i as int]);
        }
        let ghost before = kept_sources(pairs@.take(i as int));
        match Rule::new(pair.0.as_str(), pair.1.as_str()) {
            Ok(rule) => {
                proof {
                    assert(kept_sources(pairs@.take(i + 1)) == before.push(
                        (pairs@[i as int].0@, pairs@[i as int].1@),
                    ));
                }
                out.push(rule);
            },
            Err(_) => {
                proof {
                    assert(kept_sources(pairs@.take(i + 1)) == before);
                }
            },
        }
    }
    proof {
        assert(pairs@.take(n as int) =~= pairs@);
    }
    out
}

/// The persisted shape of the palette: its (symbol, colour) entries, in
/// storage order.
pub fn export_palette(palette: &Palette) -> (r: Vec<(char, [u8; 4])>)
    ensures
        r@ == palette.entries@,
{
    let n = palette.entries.len();
    let mut out: Vec<(char, [u8; 4])> = Vec::new();
    for i in 0..n
        invariant
            n == palette.entries@.len(),
            out@ == palette.entries@.take(i as int),
    {
        out.push(palette.entries[i]);
        proof {
            assert(out@ =~= palette.entries@.take(i + 1));
        }
    }
    proof {
        assert(palette.entries@.take(n as int) =~= palette.entries@);
    }
    out
}

/// Rebuilds a palette from persisted entries: every listed symbol is
/// held, a symbol listed twice keeps its last listed colour, and the
/// palette's keys stay unique.
pub fn import_palette(entries: &Vec<(char, [u8; 4])>) -> (r: Palette)
    ensures
        r.wf(),
        forall|i: int| 0 <= i < entries@.len() ==> r.has((#[trigger] entries@[i]).0),
        forall|i: int|
            0 <= i < entries@.len() && (forall|j: int|
                i < j < entries@.len() ==> entries@[j].0 != entries@[i].0) ==> r.color_of(
                (#[trigger] entries@[i]).0,
            ) == entries@[i].1,
{
    let n = entries.len();
    let mut palette = Palette::new();
    for i in 0..n
        invariant
            n == entries@.len(),
            palette.wf(),
            palette.entries@.len() <= i,
            forall|k: int| 0 <= k < i ==> palette.has((#[trigger] entries@[k]).0),
            forall|k: int|
                0 <= k < i && (forall|j: int| k < j < i ==> entries@[j].0 != entries@[k].0)
                    ==> palette.color_of((#[trigger] entries@[k]).0) == entries@[k].1,
    {
        let entry = entries[i];
        palette.insert(entry.0, entry.1);
        proof {
            assert forall|k: int| 0 <= k < i + 1 implies palette.has(
                (#[trigger] entries@[k]).0,
            ) by {
                if entries@[k].0 != entry.0 {
                }
            }
            assert forall|k: int|
                0 <= k < i + 1 && (forall|j: int|
                    k < j < i + 1 ==> entries@[j].0 != entries@[k].0) implies palette.color_of(
                (#[trigger] entries@[k]).0,
            ) == entries@[k].1 by {
                if k < i {
                    assert(entries@[i as int].0 != entries@[k].0);
                }
            }
        }
    }
    palette
}

} // verus!
