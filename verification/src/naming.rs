//! Names on disk and on the image CDN: byte-limited truncation, the
//! download directory name, and the plan of one page (its URL, file name and
//! scramble block count).
use vstd::prelude::*;
use vstd::utf8::encode_utf8;

use crate::crypto::lemma_ascii_byte_len;
use crate::image::{calculate_block_num, spec_block_num, spec_format_extension, DownloadFormat};
use crate::target::lemma_decimal_digits;
use crate::text::{
    append_chars, ascii_lower, byte_len, chars_to_string, copy_range, decimal,
    eq_chars, filename_filter, i64_decimal, is_digit, lemma_byte_len_prefix, lemma_byte_len_push,
    padded_decimal, signed_decimal, spec_filename_filter, str_chars, to_ascii_lower, trim,
    trim_chars, trim_end, trim_end_chars, utf8_width, zero_pad,
};

verus! {

// ---------------------------------------------------------------------------
// Truncation by UTF-8 bytes
// ---------------------------------------------------------------------------

/// The number of leading characters, counting from `k`, whose UTF-8 encoding
/// fits in `max` bytes.
pub open spec fn fit_count(s: Seq<char>, max: nat, k: int) -> int
    decreases s.len() - k,
{
    if k < 0 || k >= s.len() {
        k
    } else if byte_len(s.subrange(0, k + 1)) <= max {
        fit_count(s, max, k + 1)
    } else {
        k
    }
}

/// `s` cut to at most `max` UTF-8 bytes at a character boundary, then
/// stripped of trailing white space; unchanged when it already fits.
pub open spec fn spec_truncate_utf8(s: Seq<char>, max: nat) -> Seq<char> {
    if byte_len(s) <= max {
        s
    } else {
        trim_end(s.subrange(0, fit_count(s, max, 0)))
    }
}

/// Lemma: `fit_count` stays within the sequence and its prefix fits.
proof fn lemma_fit_count(s: Seq<char>, max: nat, k: int)
    requires
        0 <= k <= s.len(),
        byte_len(s.subrange(0, k)) <= max,
    ensures
        k <= fit_count(s, max, k) <= s.len(),
        byte_len(s.subrange(0, fit_count(s, max, k))) <= max,
    decreases s.len() - k,
{
    if k < s.len() && byte_len(s.subrange(0, k + 1)) <= max {
        lemma_fit_count(s, max, k + 1);
    }
}

/// Lemma: trimming the end keeps a prefix.
pub proof fn lemma_trim_end_prefix(s: Seq<char>)
    ensures
        trim_end(s).len() <= s.len(),
        trim_end(s) == s.subrange(0, trim_end(s).len() as int),
    decreases s.len(),
{
    if s.len() > 0 && crate::text::is_space(s.last()) {
        lemma_trim_end_prefix(s.drop_last());
        assert(s.drop_last().subrange(0, trim_end(s).len() as int) =~= s.subrange(
            0,
            trim_end(s).len() as int,
        ));
    } else {
        assert(s.subrange(0, s.len() as int) =~= s);
    }
}

/// Cuts `input` to at most `max_bytes` UTF-8 bytes at a character boundary
/// and strips trailing white space; an input that fits is returned as is.
pub fn truncate_utf8_by_bytes(input: &[char], max_bytes: usize) -> (res: Vec<char>)
    ensures
        res@ == spec_truncate_utf8(input@, max_bytes as nat),
        byte_len(res@) <= max_bytes,
        res@.len() <= input@.len(),
        res@ == input@.subrange(0, res@.len() as int),
{
    let n = input.len();
    let mut k: usize = 0;
    let mut used: usize = 0;
    proof {
        assert(input@.subrange(0, 0) =~= Seq::<char>::empty());
        assert(encode_utf8(Seq::<char>::empty()) =~= Seq::<u8>::empty());
    }
    let mut done = false;
    while !done && k < n
        invariant
            n == input@.len(),
            k <= n,
            used == byte_len(input@.subrange(0, k as int)),
            used <= max_bytes,
            fit_count(input@, max_bytes as nat, 0) == fit_count(input@, max_bytes as nat, k as int),
            done ==> k < n && byte_len(input@.subrange(0, k + 1)) > max_bytes,
        decreases n - k + (if done { 0int } else { 1int }),
    {
        let w = utf8_width(input[k]);
        proof {
            lemma_byte_len_push(input@.subrange(0, k as int), input@[k as int]);
            assert(input@.subrange(0, k as int).push(input@[k as int]) =~= input@.subrange(
                0,
                k + 1,
            ));
        }
        if w > max_bytes - used {
            done = true;
        } else {
            used += w;
            k += 1;
        }
    }
    proof {
        lemma_fit_count(input@, max_bytes as nat, 0);
    }
    if !done {
        proof {
            assert(input@.subrange(0, n as int) =~= input@);
        }
        return copy_range(input, 0, n);
    }
    proof {
        lemma_byte_len_prefix(input@, k + 1);
        assert(byte_len(input@) > max_bytes);
        assert(fit_count(input@, max_bytes as nat, k as int) == k);
    }
    let prefix = copy_range(input, 0, k);
    let res = trim_end_chars(&prefix);
    proof {
        lemma_trim_end_prefix(prefix@);
        let m = res@.len() as int;
        assert(res@ =~= input@.subrange(0, m));
        lemma_byte_len_prefix(prefix@, m);
        assert(prefix@.subrange(0, m) =~= res@);
    }
    res
}

/// Cuts a string to at most `max_bytes` UTF-8 bytes (see
/// [`truncate_utf8_by_bytes`]).
pub fn truncate_utf8_str(input: &str, max_bytes: usize) -> (res: String)
    ensures
        res@ == spec_truncate_utf8(input@, max_bytes as nat),
{
    chars_to_string(&truncate_utf8_by_bytes(&str_chars(input), max_bytes))
}

// ---------------------------------------------------------------------------
// The download directory name
// ---------------------------------------------------------------------------

/// The longest directory name, in UTF-8 bytes.
pub open spec fn max_name_bytes() -> nat {
    180
}

/// ` [JM<id>]`, the suffix that marks a directory as the comic's.
pub open spec fn jm_suffix(comic_id: i64) -> Seq<char> {
    " [JM"@ + signed_decimal(comic_id as int) + "]"@
}

/// The directory a comic is downloaded to: its title made safe and marked
/// with ` [JM<id>]` (or `JMComic <id>` for an empty title); when that exceeds
/// 180 bytes, cut to leave room for the suffix and marked again.
pub open spec fn spec_download_dir_name(comic_id: i64, title: Seq<char>) -> Seq<char> {
    let sanitized = trim(spec_filename_filter(title));
    let full = if sanitized.len() == 0 {
        "JMComic "@ + signed_decimal(comic_id as int)
    } else {
        sanitized + jm_suffix(comic_id)
    };
    if byte_len(full) <= max_name_bytes() {
        full
    } else {
        let suffix = jm_suffix(comic_id);
        let available: nat = if byte_len(suffix) <= max_name_bytes() {
            (max_name_bytes() - byte_len(suffix)) as nat
        } else {
            0
        };
        spec_truncate_utf8(full, available) + suffix
    }
}

/// `10^k`.
pub open spec fn pow10(k: nat) -> nat
    decreases k,
{
    if k == 0 {
        1
    } else {
        10 * pow10((k - 1) as nat)
    }
}

/// Lemma: a number below `10^k` has at most `k` decimal digits.
proof fn lemma_decimal_len(n: nat, k: nat)
    requires
        k >= 1,
        n < pow10(k),
    ensures
        decimal(n).len() <= k,
    decreases k,
{
    if n >= 10 {
        assert(k >= 2) by {
            if k == 1 {
                assert(pow10(1) == 10 * pow10(0));
            }
        }
        assert(n / 10 < pow10((k - 1) as nat)) by {
            assert(pow10(k) == 10 * pow10((k - 1) as nat));
        }
        lemma_decimal_len(n / 10, (k - 1) as nat);
    }
}

/// Lemma: the suffix ` [JM<id>]` is ASCII and at most 25 bytes long.
proof fn lemma_jm_suffix_bytes(comic_id: i64)
    ensures
        byte_len(jm_suffix(comic_id)) == jm_suffix(comic_id).len(),
        jm_suffix(comic_id).len() <= 25,
{
    reveal_strlit(" [JM");
    reveal_strlit("]");
    let m: nat = if comic_id < 0 {
        (-comic_id) as nat
    } else {
        comic_id as nat
    };
    assert(pow10(19) == 10000000000000000000nat) by {
        reveal_with_fuel(pow10, 20);
    }
    lemma_decimal_len(m, 19);
    lemma_decimal_digits(m);
    let d = signed_decimal(comic_id as int);
    assert(d.len() <= 20);
    let s = jm_suffix(comic_id);
    assert forall|i: int| 0 <= i < s.len() implies (#[trigger] s[i] as u32) < 128 by {
        if i >= 4 && i < 4 + d.len() {
            if comic_id < 0 && i == 4 {
            } else if comic_id < 0 {
                assert(s[i] == decimal(m)[i - 5]);
                assert(is_digit(decimal(m)[i - 5]));
            } else {
                assert(s[i] == decimal(m)[i - 4]);
                assert(is_digit(decimal(m)[i - 4]));
            }
        }
    }
    lemma_ascii_byte_len(s);
}

/// Lemma: concatenation adds byte lengths.
proof fn lemma_byte_len_concat(a: Seq<char>, b: Seq<char>)
    ensures
        byte_len(a + b) == byte_len(a) + byte_len(b),
{
    crate::text::lemma_encode_utf8_concat(a, b);
}

/// The directory name for a comic, at most 180 bytes long.
pub fn build_download_dir_name(comic_id: i64, title: &str) -> (res: String)
    ensures
        res@ == spec_download_dir_name(comic_id, title@),
        byte_len(res@) <= 180,
{
    let filtered = filename_filter(&str_chars(title));
    let sanitized = trim_chars(&filtered);
    let id_text = i64_decimal(comic_id);
    let mut suffix = str_chars(" [JM");
    append_chars(&mut suffix, &id_text);
    append_chars(&mut suffix, &str_chars("]"));
    let full = if sanitized.len() == 0 {
        let mut t = str_chars("JMComic ");
        append_chars(&mut t, &id_text);
        t
    } else {
        let mut t = sanitized;
        append_chars(&mut t, &suffix);
        t
    };
    proof {
        lemma_jm_suffix_bytes(comic_id);
        assert(suffix@ == jm_suffix(comic_id));
    }
    let suffix_len = suffix.len();
    if byte_len_fits(&full, 180) {
        return chars_to_string(&full);
    }
    let available: usize = if suffix_len <= 180 {
        180 - suffix_len
    } else {
        0
    };
    let mut cut = truncate_utf8_by_bytes(&full, available);
    proof {
        assert(byte_len(full@) > 180);
        assert(byte_len(cut@) <= available);
    }
    let ghost cut_view = cut@;
    append_chars(&mut cut, &suffix);
    proof {
        lemma_byte_len_concat(cut_view, suffix@);
    }
    chars_to_string(&cut)
}

/// Whether the UTF-8 encoding of `s` fits in `max` bytes.
fn byte_len_fits(s: &[char], max: usize) -> (b: bool)
    ensures
        b == (byte_len(s@) <= max),
{
    let t = truncate_utf8_by_bytes(s, max);
    if t.len() < s.len() {
        proof {
            if byte_len(s@) <= max {
                assert(t@ == s@);
            }
        }
        false
    } else {
        proof {
            assert(t@ =~= s@);
            if byte_len(s@) > max {
                assert(byte_len(t@) <= max);
            }
        }
        true
    }
}

// ---------------------------------------------------------------------------
// One page
// ---------------------------------------------------------------------------

/// The extension std's `Path::extension` finds in a file name.
pub uninterp spec fn spec_path_extension(name: Seq<char>) -> Option<Seq<char>>;

/// std's `Path::new(name).extension()`, read back as a string. The contract
/// claims that the result is a function of the name (named
/// [`spec_path_extension`]).
#[verifier::external_body]
fn path_extension(name: &str) -> (res: Option<String>)
    ensures
        match res {
            Some(e) => spec_path_extension(name@) == Some(e@),
            None => spec_path_extension(name@) is None,
        },
{
    std::path::Path::new(name).extension().and_then(|e| e.to_str()).map(|e| e.to_string())
}

/// The stem std's `Path::file_stem` finds in a file name.
pub uninterp spec fn spec_path_file_stem(name: Seq<char>) -> Option<Seq<char>>;

/// std's `Path::new(name).file_stem()`, read back as a string. The contract
/// claims that the result is a function of the name (named
/// [`spec_path_file_stem`]).
#[verifier::external_body]
fn path_file_stem(name: &str) -> (res: Option<String>)
    ensures
        match res {
            Some(e) => spec_path_file_stem(name@) == Some(e@),
            None => spec_path_file_stem(name@) is None,
        },
{
    std::path::Path::new(name).file_stem().and_then(|e| e.to_str()).map(|e| e.to_string())
}

/// How one page is downloaded and saved.
#[derive(Debug)]
pub struct JmImagePlan {
    /// Where the page is downloaded from.
    pub url: String,
    /// The file name it is saved under, inside its chapter's directory.
    pub file_name: String,
    /// The number of row blocks it was cut into (0: not scrambled).
    pub block_num: u32,
}

/// The extension of a page as served, lower case (`webp` when it has none).
pub open spec fn source_extension(filename: Seq<char>) -> Seq<char> {
    match spec_path_extension(filename) {
        Some(e) => ascii_lower(e),
        None => "webp"@,
    }
}

/// The URL of a page of a chapter on the image CDN.
pub open spec fn spec_image_url(chapter_id: i64, filename: Seq<char>) -> Seq<char> {
    "https://cdn-msp2.jmapiproxy2.cc/media/photos/"@ + signed_decimal(chapter_id as int) + "/"@
        + filename
}

/// The block count of a page: only WebP pages are scrambled.
pub open spec fn spec_page_block_num(scramble_id: i64, chapter_id: i64, filename: Seq<char>, stem: Seq<char>) -> u32 {
    let ext = source_extension(filename);
    if ext == "gif"@ {
        0
    } else if ext == "webp"@ {
        spec_block_num(scramble_id, chapter_id, stem)
    } else {
        0
    }
}

/// The file name a page is saved under: its 1-based number padded to four
/// digits, and the extension of the output format (GIFs and original-format
/// downloads keep the source's).
pub open spec fn spec_page_file_name(image_index: nat, filename: Seq<char>, format: DownloadFormat) -> Seq<char> {
    let ext = source_extension(filename);
    let save_ext = if ext == "gif"@ {
        "gif"@
    } else {
        match spec_format_extension(format) {
            Some(e) => e,
            None => ext,
        }
    };
    zero_pad(decimal(image_index + 1), 4) + "."@ + save_ext
}

/// Whether a page has a plan: it needs a file stem.
pub open spec fn spec_has_image_plan(filename: Seq<char>) -> bool {
    spec_path_file_stem(filename) is Some
}

/// Whether `p` is the plan of page `image_index` (file `filename`) of a chapter.
pub open spec fn is_image_plan(
    p: JmImagePlan,
    chapter_id: i64,
    scramble_id: i64,
    image_index: nat,
    filename: Seq<char>,
    format: DownloadFormat,
) -> bool {
    &&& spec_path_file_stem(filename) is Some
    &&& p.url@ == spec_image_url(chapter_id, filename)
    &&& p.file_name@ == spec_page_file_name(image_index, filename, format)
    &&& p.block_num == spec_page_block_num(
        scramble_id,
        chapter_id,
        filename,
        spec_path_file_stem(filename)->0,
    )
}

/// The plan of page `image_index` (file `filename`) of a chapter; `None` when
/// the file name has no stem.
pub fn build_image_plan(
    chapter_id: i64,
    scramble_id: i64,
    image_index: usize,
    filename: &str,
    download_format: DownloadFormat,
) -> (res: Option<JmImagePlan>)
    requires
        image_index < usize::MAX,
    ensures
        res is Some <==> spec_has_image_plan(filename@),
        res matches Some(p) ==> is_image_plan(
            p,
            chapter_id,
            scramble_id,
            image_index as nat,
            filename@,
            download_format,
        ),
{
    let src_ext = match path_extension(filename) {
        Some(e) => to_ascii_lower(&str_chars(e.as_str())),
        None => str_chars("webp"),
    };
    let mut url = str_chars("https://cdn-msp2.jmapiproxy2.cc/media/photos/");
    append_chars(&mut url, &i64_decimal(chapter_id));
    append_chars(&mut url, &str_chars("/"));
    append_chars(&mut url, &str_chars(filename));
    let stem = match path_file_stem(filename) {
        Some(s) => str_chars(s.as_str()),
        None => return None,
    };
    let is_gif = eq_chars(&src_ext, &str_chars("gif"));
    let block_num = if is_gif {
        0
    } else if eq_chars(&src_ext, &str_chars("webp")) {
        calculate_block_num(scramble_id, chapter_id, &stem)
    } else {
        0
    };
    let save_ext = if is_gif {
        str_chars("gif")
    } else {
        match download_format.extension() {
            Some(e) => str_chars(e),
            None => src_ext,
        }
    };
    assert(usize::MAX <= u64::MAX);
    let mut file_name = padded_decimal(image_index as u64 + 1, 4);
    append_chars(&mut file_name, &str_chars("."));
    append_chars(&mut file_name, &save_ext);
    Some(JmImagePlan {
        url: chars_to_string(&url),
        file_name: chars_to_string(&file_name),
        block_num,
    })
}

} // verus!
