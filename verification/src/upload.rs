//! Admission and naming of uploaded images, shared by the group-upload and
//! image-upload handlers: at most twenty files per request, only image
//! extensions, and each file stored under the Keccak-256 digest of its content.

use sha3::{Digest, Keccak256};
use vstd::prelude::*;
use vstd::string::*;
use vstd::utf8::is_ascii_chars;

use crate::reply::{reply_is, Reply, Status};

verus! {

/// How many form fields one upload request may carry.
pub const MAX_IMAGES_PER_UPLOAD: u64 = 20;

/// The part of a file name after its last `.`, or the whole name where it has
/// none: what `name.split('.').last()` gives.
pub open spec fn extension_of(name: Seq<char>) -> Seq<char>
    decreases name.len(),
{
    if name.len() == 0 {
        name
    } else if name.last() == '.' {
        Seq::empty()
    } else {
        extension_of(name.drop_last()).push(name.last())
    }
}

/// The extensions that an upload accepts, in lower case.
pub open spec fn is_image_extension(e: Seq<char>) -> bool {
    ||| e == seq!['j', 'p', 'g']
    ||| e == seq!['j', 'p', 'e', 'g']
    ||| e == seq!['p', 'n', 'g']
    ||| e == seq!['g', 'i', 'f']
    ||| e == seq!['w', 'e', 'b', 'p']
}

/// The accepted extensions are exactly the five strings `jpg`, `jpeg`,
/// `png`, `gif` and `webp`: any other string, `pdf` among them, is refused.
pub proof fn lemma_image_extensions_are_five(e: Seq<char>)
    ensures
        is_image_extension(e) <==> (e =~= "jpg"@ || e =~= "jpeg"@ || e =~= "png"@ || e =~= "gif"@
            || e =~= "webp"@),
        !is_image_extension("pdf"@),
        is_image_extension(e) ==> 3 <= e.len() <= 4,
{
    reveal_strlit("jpg");
    reveal_strlit("jpeg");
    reveal_strlit("png");
    reveal_strlit("gif");
    reveal_strlit("webp");
    reveal_strlit("pdf");
    assert("jpg"@ =~= seq!['j', 'p', 'g']);
    assert("jpeg"@ =~= seq!['j', 'p', 'e', 'g']);
    assert("png"@ =~= seq!['p', 'n', 'g']);
    assert("gif"@ =~= seq!['g', 'i', 'f']);
    assert("webp"@ =~= seq!['w', 'e', 'b', 'p']);
    let pdf = "pdf"@;
    assert(pdf.len() == 3 && pdf[0] == 'p' && pdf[1] == 'd');
    assert(pdf != seq!['p', 'n', 'g']) by {
        assert(seq!['p', 'n', 'g'][1] == 'n');
    }
    assert(pdf != seq!['j', 'p', 'g']) by {
        assert(seq!['j', 'p', 'g'][0] == 'j');
    }
    assert(pdf != seq!['g', 'i', 'f']) by {
        assert(seq!['g', 'i', 'f'][0] == 'g');
    }
}

/// The result of `str::to_lowercase` on a string.
pub uninterp spec fn unicode_lowercase(s: Seq<char>) -> Seq<char>;

/// The lower case of an ASCII character: `A`..`Z` become `a`..`z`, every
/// other character stays.
pub open spec fn ascii_lower(c: char) -> char {
    if 'A' <= c && c <= 'Z' {
        ((c as u32) + 32) as char
    } else {
        c
    }
}

/// Calls `str::to_lowercase`. Its contract claims that the result is a
/// function of the characters of `s`, and that a string of ASCII characters
/// is lower-cased character by character, `A`..`Z` to `a`..`z` (Unicode's
/// lowercase mapping on the ASCII range). What the mapping does to other
/// characters is left unstated.
#[verifier::external_body]
fn lowercase(s: &str) -> (lowered: String)
    ensures
        lowered@ == unicode_lowercase(s@),
        is_ascii_chars(s@) ==> lowered@ == s@.map_values(|c: char| ascii_lower(c)),
{
    s.to_lowercase()
}

/// The Keccak-256 digest of a byte string.
pub uninterp spec fn keccak256(data: Seq<u8>) -> Seq<u8>;

/// Hashes `data` with `sha3::Keccak256` (`new`, `update`, `finalize`). Its
/// contract claims that the digest is a function of `data` alone, and that it
/// is 32 bytes long, as the hasher's output size `U32` fixes it; the hash
/// function itself is left unstated.
#[verifier::external_body]
fn keccak256_digest(data: &[u8]) -> (digest: Vec<u8>)
    ensures
        digest@ == keccak256(data@),
        digest@.len() == 32,
{
    let mut hasher = Keccak256::new();
    hasher.update(data);
    hasher.finalize().to_vec()
}

/// The lower-case hexadecimal digit for `n`, where `n < 16`.
pub open spec fn hex_digit(n: int) -> char {
    seq!['0', '1', '2', '3', '4', '5', '6', '7', '8', '9', 'a', 'b', 'c', 'd', 'e', 'f'][n]
}

/// Two lower-case hexadecimal digits per byte, high half first: what the
/// `{:x}` format of a byte array writes.
pub open spec fn lower_hex(bytes: Seq<u8>) -> Seq<char>
    decreases bytes.len(),
{
    if bytes.len() == 0 {
        Seq::empty()
    } else {
        lower_hex(bytes.drop_last()) + seq![
            hex_digit(bytes.last() as int / 16),
            hex_digit(bytes.last() as int % 16),
        ]
    }
}

/// The directory in which uploaded images are written.
pub open spec fn image_dir() -> Seq<char> {
    seq!['.', '/', 's', 't', 'a', 't', 'i', 'c', '/', 'i', 'm', 'a', 'g', 'e', '/']
}

/// The name under which an image with digest `digest` and extension `ext` is
/// stored: the digest in hexadecimal, a dot, and the extension.
pub open spec fn stored_name(digest: Seq<u8>, ext: Seq<char>) -> Seq<char> {
    lower_hex(digest) + seq!['.'] + ext
}

/// The name of the stored copy of `content` uploaded with extension `ext`.
pub open spec fn image_name(content: Seq<u8>, ext: Seq<char>) -> Seq<char> {
    stored_name(keccak256(content), ext)
}

/// A name that the upload logic can give a stored image: 64 hexadecimal
/// digits, a dot and an image extension.
pub open spec fn is_image_name(n: Seq<char>) -> bool {
    exists|digest: Seq<u8>, ext: Seq<char>|
        #![trigger stored_name(digest, ext)]
        digest.len() == 32 && is_image_extension(ext) && n == stored_name(digest, ext)
}

/// Writes `bytes` as lower-case hexadecimal, two digits per byte.
pub fn to_lower_hex(bytes: &[u8]) -> (s: String)
    ensures
        s@ == lower_hex(bytes@),
{
    let digits = "0123456789abcdef";
    proof {
        reveal_strlit("0123456789abcdef");
    }
    assert(digits@ =~= seq![
        '0', '1', '2', '3', '4', '5', '6', '7', '8', '9', 'a', 'b', 'c', 'd', 'e', 'f',
    ]);
    let mut s = String::new();
    let mut i: usize = 0;
    while i < bytes.len()
        invariant
            i <= bytes@.len(),
            digits@ =~= seq![
                '0', '1', '2', '3', '4', '5', '6', '7', '8', '9', 'a', 'b', 'c', 'd', 'e', 'f',
            ],
            s@ == lower_hex(bytes@.take(i as int)),
        decreases bytes.len() - i,
    {
        let b = bytes[i];
        let hi = (b / 16) as usize;
        let lo = (b % 16) as usize;
        s.append(digits.substring_char(hi, hi + 1));
        s.append(digits.substring_char(lo, lo + 1));
        proof {
            let t = bytes@.take(i + 1);
            assert(t.drop_last() =~= bytes@.take(i as int));
            assert(t.last() == b);
        }
        i = i + 1;
    }
    assert(bytes@.take(bytes@.len() as int) =~= bytes@);
    s
}

proof fn lemma_extension_skip(name: Seq<char>, k: int)
    requires
        0 <= k <= name.len(),
        forall|m: int| k <= m < name.len() ==> #[trigger] name[m] != '.',
        k == 0 || name[k - 1] == '.',
    ensures
        extension_of(name) == name.skip(k),
    decreases name.len() - k,
{
    if name.len() == k {
        if k == 0 {
            assert(name.skip(0) =~= name);
        } else {
            assert(name.skip(k) =~= Seq::<char>::empty());
        }
    } else {
        let t = name.drop_last();
        assert forall|m: int| k <= m < t.len() implies #[trigger] t[m] != '.' by {
            assert(t[m] == name[m]);
        }
        if k > 0 {
            assert(t[k - 1] == name[k - 1]);
        }
        lemma_extension_skip(t, k);
        assert(t.skip(k).push(name.last()) =~= name.skip(k));
    }
}

/// The extension of a file name: what follows its last `.`, or the whole name.
pub fn extension(filename: &str) -> (e: String)
    ensures
        e@ == extension_of(filename@),
{
    let n = filename.unicode_len();
    let mut k: usize = n;
    while k > 0 && filename.get_char(k - 1) != '.'
        invariant
            n == filename@.len(),
            k <= n,
            forall|m: int| k <= m < n ==> #[trigger] filename@[m] != '.',
        decreases k,
    {
        k = k - 1;
    }
    proof {
        lemma_extension_skip(filename@, k as int);
        assert(filename@.subrange(k as int, n as int) =~= filename@.skip(k as int));
    }
    String::from_str(filename.substring_char(k, n))
}

/// Whether a lower-cased extension is one of the accepted image extensions.
pub fn is_image_extension_str(e: &str) -> (b: bool)
    ensures
        b == is_image_extension(e@),
{
    proof {
        reveal_strlit("jpg");
        reveal_strlit("jpeg");
        reveal_strlit("png");
        reveal_strlit("gif");
        reveal_strlit("webp");
    }
    assert("jpg"@ =~= seq!['j', 'p', 'g']);
    assert("jpeg"@ =~= seq!['j', 'p', 'e', 'g']);
    assert("png"@ =~= seq!['p', 'n', 'g']);
    assert("gif"@ =~= seq!['g', 'i', 'f']);
    assert("webp"@ =~= seq!['w', 'e', 'b', 'p']);
    let e = String::from_str(e);
    e == String::from_str("jpg") || e == String::from_str("jpeg") || e == String::from_str("png")
        || e == String::from_str("gif") || e == String::from_str("webp")
}

/// `r` is the refusal of a file that is not an image.
pub open spec fn is_non_image_refusal(r: Reply) -> bool {
    reply_is(r, Status::Forbidden, "non-image upload"@)
}

/// Accepts an already lower-cased extension if it is an image extension, and
/// otherwise refuses the upload with `403 non-image upload`.
pub fn accept_extension(lowered: String) -> (r: Result<String, Reply>)
    ensures
        r is Ok <==> is_image_extension(lowered@),
        r matches Ok(e) ==> e@ == lowered@,
        r matches Err(reply) ==> is_non_image_refusal(reply),
{
    if is_image_extension_str(lowered.as_str()) {
        Ok(lowered)
    } else {
        Err(Reply::forbidden("non-image upload"))
    }
}

/// The extension under which an uploaded file with this name is stored: the
/// lower-cased part after its last dot, provided that it is an image
/// extension; otherwise the refusal `403 non-image upload`.
pub fn classify_filename(filename: &str) -> (r: Result<String, Reply>)
    ensures
        r is Ok <==> is_image_extension(unicode_lowercase(extension_of(filename@))),
        r matches Ok(e) ==> e@ == unicode_lowercase(extension_of(filename@)),
        r matches Err(reply) ==> is_non_image_refusal(reply),
        is_ascii_chars(extension_of(filename@)) ==> unicode_lowercase(extension_of(filename@))
            == extension_of(filename@).map_values(|c: char| ascii_lower(c)),
{
    let ext = extension(filename);
    accept_extension(lowercase(ext.as_str()))
}

/// The answer to an upload whose content stream broke off.
pub fn incomplete_upload() -> (r: Reply)
    ensures
        reply_is(r, Status::Forbidden, "incompleted upload"@),
{
    Reply::forbidden("incompleted upload")
}

/// The stored name (hexadecimal digest, dot, extension) and the path at which
/// the file is written, for a file with the given digest and extension.
pub fn image_names(digest: &[u8], ext: &str) -> (r: (String, String))
    ensures
        r.0@ == stored_name(digest@, ext@),
        r.1@ == image_dir() + stored_name(digest@, ext@),
{
    let mut name = to_lower_hex(digest);
    name.append(".");
    name.append(ext);
    proof {
        reveal_strlit(".");
        reveal_strlit("./static/image/");
    }
    assert("./static/image/"@ =~= image_dir());
    let mut path = String::from_str("./static/image/");
    path.append(name.as_str());
    assert(name@ =~= stored_name(digest@, ext@));
    assert(path@ =~= image_dir() + stored_name(digest@, ext@));
    (name, path)
}

/// A file name's extension holds no dot and is what the name ends with.
pub proof fn lemma_extension_is_dotless_suffix(name: Seq<char>)
    ensures
        forall|k: int| 0 <= k < extension_of(name).len() ==> #[trigger] extension_of(name)[k] != '.',
        extension_of(name).len() <= name.len(),
        extension_of(name) == name.skip(name.len() - extension_of(name).len()),
        extension_of(name).len() == name.len() || name[name.len() - extension_of(name).len()
            - 1] == '.',
    decreases name.len(),
{
    if name.len() == 0 {
        assert(name.skip(0) =~= name);
    } else if name.last() == '.' {
        assert(name.skip(name.len() as int) =~= Seq::<char>::empty());
    } else {
        let t = name.drop_last();
        lemma_extension_is_dotless_suffix(t);
        let e = extension_of(t);
        assert(extension_of(name) == e.push(name.last()));
        assert(e.push(name.last()) =~= name.skip(name.len() - (e.len() + 1)));
    }
}

proof fn lemma_lower_hex_len(b: Seq<u8>)
    ensures
        lower_hex(b).len() == 2 * b.len(),
    decreases b.len(),
{
    if b.len() > 0 {
        lemma_lower_hex_len(b.drop_last());
    }
}

proof fn lemma_hex_digit_injective(x: int, y: int)
    requires
        0 <= x < 16,
        0 <= y < 16,
        hex_digit(x) == hex_digit(y),
    ensures
        x == y,
{
}

/// Hexadecimal writing loses nothing: byte strings with the same writing are
/// equal, and the writing has two digits per byte.
pub proof fn lemma_lower_hex_injective(a: Seq<u8>, b: Seq<u8>)
    requires
        lower_hex(a) == lower_hex(b),
    ensures
        a == b,
        lower_hex(a).len() == 2 * a.len(),
    decreases a.len(),
{
    lemma_lower_hex_len(a);
    lemma_lower_hex_len(b);
    if a.len() > 0 {
        let ha = lower_hex(a.drop_last());
        let hb = lower_hex(b.drop_last());
        lemma_lower_hex_len(a.drop_last());
        lemma_lower_hex_len(b.drop_last());
        let n = ha.len() as int;
        assert(hb.len() == n);
        let da = seq![hex_digit(a.last() as int / 16), hex_digit(a.last() as int % 16)];
        let db = seq![hex_digit(b.last() as int / 16), hex_digit(b.last() as int % 16)];
        assert(lower_hex(a) == ha + da);
        assert(lower_hex(b) == hb + db);
        assert((ha + da)[n] == da[0]);
        assert((hb + db)[n] == db[0]);
        assert((ha + da)[n + 1] == da[1]);
        assert((hb + db)[n + 1] == db[1]);
        assert(lower_hex(a)[n] == lower_hex(b)[n]);
        assert(lower_hex(a)[n + 1] == lower_hex(b)[n + 1]);
        lemma_hex_digit_injective(a.last() as int / 16, b.last() as int / 16);
        lemma_hex_digit_injective(a.last() as int % 16, b.last() as int % 16);
        assert(a.last() == b.last());
        assert(ha =~= lower_hex(a).take(n));
        assert(hb =~= lower_hex(b).take(n));
        lemma_lower_hex_injective(a.drop_last(), b.drop_last());
        assert(a =~= a.drop_last().push(a.last()));
        assert(b =~= b.drop_last().push(b.last()));
    }
}

/// The code point of the lower-case hexadecimal digit for `n < 16`:
/// `0`..`9`, then `a`..`f`.
pub open spec fn hex_code(n: int) -> int {
    if n < 10 {
        48 + n
    } else {
        97 + n - 10
    }
}

/// Hexadecimal writing: two characters per byte, the high half first, each
/// a digit `0`..`9` or a lower-case letter `a`..`f`.
pub proof fn lemma_lower_hex_digits(b: Seq<u8>)
    ensures
        lower_hex(b).len() == 2 * b.len(),
        forall|k: int|
            0 <= k < b.len() ==> (lower_hex(b)[2 * k] as int) == hex_code(#[trigger] b[k] as int / 16)
                && (lower_hex(b)[2 * k + 1] as int) == hex_code(b[k] as int % 16),
    decreases b.len(),
{
    lemma_lower_hex_len(b);
    if b.len() > 0 {
        let t = b.drop_last();
        lemma_lower_hex_digits(t);
        lemma_lower_hex_len(t);
        let h = lower_hex(t);
        let last = seq![hex_digit(b.last() as int / 16), hex_digit(b.last() as int % 16)];
        assert(lower_hex(b) == h + last);
        assert forall|k: int| 0 <= k < b.len() implies (lower_hex(b)[2 * k] as int) == hex_code(
            #[trigger] b[k] as int / 16,
        ) && (lower_hex(b)[2 * k + 1] as int) == hex_code(b[k] as int % 16) by {
            if k < t.len() {
                assert(b[k] == t[k]);
                assert((h + last)[2 * k] == h[2 * k]);
                assert((h + last)[2 * k + 1] == h[2 * k + 1]);
            } else {
                assert(b[k] == b.last());
                assert((h + last)[2 * k] == last[0]);
                assert((h + last)[2 * k + 1] == last[1]);
                let hi = b.last() as int / 16;
                let lo = b.last() as int % 16;
                assert(0 <= hi < 16 && 0 <= lo < 16);
                assert(hex_digit(hi) as int == hex_code(hi));
                assert(hex_digit(lo) as int == hex_code(lo));
            }
        }
    }
}

/// A stored name is the hexadecimal digest, then a single `.`, then the
/// extension.
pub proof fn lemma_stored_name_shape(digest: Seq<u8>, ext: Seq<char>)
    ensures
        stored_name(digest, ext).len() == 2 * (digest.len() as int) + 1 + ext.len(),
        stored_name(digest, ext).take(2 * (digest.len() as int)) == lower_hex(digest),
        stored_name(digest, ext)[2 * (digest.len() as int)] == '.',
        stored_name(digest, ext).skip(2 * (digest.len() as int) + 1) == ext,
{
    lemma_lower_hex_len(digest);
    let n = stored_name(digest, ext);
    assert(n.take(2 * (digest.len() as int)) =~= lower_hex(digest));
    assert(n.skip(2 * (digest.len() as int) + 1) =~= ext);
}

/// Images are written under the directory `./static/image/`.
pub proof fn lemma_image_dir_is_static_image()
    ensures
        image_dir() == "./static/image/"@,
{
    reveal_strlit("./static/image/");
    assert(image_dir() =~= "./static/image/"@);
}

/// A stored name gives back the digest and the extension it was made of,
/// among digests of one length: two files share a name only if their digests
/// and extensions agree.
pub proof fn lemma_stored_name_identifies(d1: Seq<u8>, e1: Seq<char>, d2: Seq<u8>, e2: Seq<char>)
    requires
        d1.len() == d2.len(),
        stored_name(d1, e1) == stored_name(d2, e2),
    ensures
        d1 == d2,
        e1 == e2,
{
    lemma_lower_hex_len(d1);
    lemma_lower_hex_len(d2);
    let n = lower_hex(d1).len() as int;
    assert(lower_hex(d1) =~= stored_name(d1, e1).take(n));
    assert(lower_hex(d2) =~= stored_name(d2, e2).take(n));
    lemma_lower_hex_injective(d1, d2);
    assert(e1 =~= stored_name(d1, e1).skip(n + 1));
    assert(e2 =~= stored_name(d2, e2).skip(n + 1));
}

/// The files of one upload request: how many form fields were admitted, and
/// the names under which the accepted images were stored, in order.
#[derive(Debug)]
pub struct UploadBatch {
    admitted: u64,
    stored: Vec<String>,
}

impl UploadBatch {
    #[verifier::type_invariant]
    spec fn inv(self) -> bool {
        &&& self.admitted <= MAX_IMAGES_PER_UPLOAD
        &&& self.stored@.len() <= self.admitted
        &&& forall|i: int|
            0 <= i < self.stored@.len() ==> is_image_name(#[trigger] self.stored@[i]@)
    }

    /// How many form fields have been admitted so far.
    pub closed spec fn admitted_count(&self) -> nat {
        self.admitted as nat
    }

    /// The names of the images stored so far, in order.
    pub closed spec fn stored_names(&self) -> Seq<Seq<char>> {
        self.stored@.map_values(|s: String| s@)
    }

    /// Whether an admitted field still awaits its image.
    pub open spec fn awaits_image(&self) -> bool {
        self.stored_names().len() < self.admitted_count()
    }

    /// What every batch satisfies: at most twenty admitted fields, at most one
    /// image per admitted field, and each image named by its digest and an
    /// image extension.
    pub open spec fn within_bounds(&self) -> bool {
        &&& self.admitted_count() <= MAX_IMAGES_PER_UPLOAD
        &&& self.stored_names().len() <= self.admitted_count()
        &&& forall|i: int|
            0 <= i < self.stored_names().len() ==> is_image_name(#[trigger] self.stored_names()[i])
    }

    proof fn lemma_within_bounds(&self)
        requires
            self.inv(),
        ensures
            self.within_bounds(),
    {
        assert forall|i: int| 0 <= i < self.stored_names().len() implies is_image_name(
            #[trigger] self.stored_names()[i],
        ) by {
            assert(self.stored_names()[i] == self.stored@[i]@);
        }
    }

    /// An upload with no field admitted yet.
    pub fn new() -> (b: UploadBatch)
        ensures
            b.admitted_count() == 0,
            b.stored_names() == Seq::<Seq<char>>::empty(),
            b.within_bounds(),
    {
        let b = UploadBatch { admitted: 0, stored: Vec::new() };
        assert(b.stored_names() =~= Seq::<Seq<char>>::empty());
        b
    }

    /// Whether an admitted field still awaits its image.
    pub fn has_open_field(&self) -> (b: bool)
        ensures
            b == self.awaits_image(),
            self.within_bounds(),
    {
        proof {
            use_type_invariant(self);
            self.lemma_within_bounds();
        }
        self.stored.len() < self.admitted as usize
    }

    /// Admits the next form field, unless twenty have been admitted already,
    /// in which case the request stops reading fields.
    pub fn admit_field(&mut self) -> (admitted: bool)
        ensures
            admitted == (old(self).admitted_count() < MAX_IMAGES_PER_UPLOAD),
            final(self).admitted_count() == if admitted {
                old(self).admitted_count() + 1
            } else {
                old(self).admitted_count()
            },
            final(self).stored_names() == old(self).stored_names(),
            final(self).within_bounds(),
    {
        proof {
            use_type_invariant(&*self);
        }
        let admitted = if self.admitted >= MAX_IMAGES_PER_UPLOAD {
            false
        } else {
            self.admitted = self.admitted + 1;
            true
        };
        proof {
            use_type_invariant(&*self);
            self.lemma_within_bounds();
        }
        admitted
    }

    /// Records the image of the field admitted last, with its accepted
    /// extension, and gives the path at which its content is to be written.
    pub fn store_image(&mut self, content: &[u8], ext: &str) -> (path: String)
        requires
            old(self).awaits_image(),
            is_image_extension(ext@),
        ensures
            final(self).admitted_count() == old(self).admitted_count(),
            final(self).stored_names() == old(self).stored_names().push(
                image_name(content@, ext@),
            ),
            path@ == image_dir() + image_name(content@, ext@),
            final(self).within_bounds(),
    {
        proof {
            use_type_invariant(&*self);
        }
        let digest = keccak256_digest(content);
        let (name, path) = image_names(digest.as_slice(), ext);
        let ghost old_stored = self.stored@;
        proof {
            assert(is_image_name(name@)) by {
                assert(digest@.len() == 32 && is_image_extension(ext@) && name@ == stored_name(
                    digest@,
                    ext@,
                ));
            }
        }
        let mut stored: Vec<String> = Vec::new();
        std::mem::swap(&mut stored, &mut self.stored);
        stored.push(name);
        proof {
            assert forall|i: int| 0 <= i < stored@.len() implies is_image_name(
                #[trigger] stored@[i]@,
            ) by {
                if i < old_stored.len() {
                    assert(stored@[i] == old_stored[i]);
                }
            }
        }
        self.stored = stored;
        assert(self.stored_names() =~= old(self).stored_names().push(image_name(content@, ext@)));
        proof {
            use_type_invariant(&*self);
            self.lemma_within_bounds();
        }
        path
    }

    /// Takes the next event of an upload and says what to do: the step
    /// `upload_step` on the batch's admitted count and stored names. A
    /// complete content is taken only for the field admitted last, with the
    /// extension that was accepted for it.
    pub fn on_event(&mut self, ev: UploadEvent) -> (a: UploadAction)
        requires
            ev matches UploadEvent::ContentRead { extension, .. } ==> old(self).awaits_image()
                && is_image_extension(extension@),
        ensures
            ((final(self).admitted_count(), final(self).stored_names()), a@) == upload_step(
                (old(self).admitted_count(), old(self).stored_names()),
                ev@,
            ),
            final(self).within_bounds(),
    {
        proof {
            use_type_invariant(&*self);
            self.lemma_within_bounds();
        }
        match ev {
            UploadEvent::StreamEnded => UploadAction::Finish,
            UploadEvent::FieldOffered => {
                if self.admit_field() {
                    UploadAction::ReadFilename
                } else {
                    UploadAction::Finish
                }
            },
            UploadEvent::FieldNamed(name) => match classify_filename(name.as_str()) {
                Ok(extension) => UploadAction::ReadContent { extension },
                Err(reply) => UploadAction::Refuse(reply),
            },
            UploadEvent::ContentFailed => UploadAction::Refuse(incomplete_upload()),
            UploadEvent::ContentRead { content, extension } => {
                let path = self.store_image(content.as_slice(), extension.as_str());
                UploadAction::Write { path, content }
            },
        }
    }

    /// The names of the stored images, in the order they were uploaded.
    pub fn finish(self) -> (names: Vec<String>)
        ensures
            names@.map_values(|s: String| s@) == self.stored_names(),
            names@.len() <= MAX_IMAGES_PER_UPLOAD,
            self.within_bounds(),
    {
        proof {
            use_type_invariant(&self);
            self.lemma_within_bounds();
        }
        self.stored
    }
}

/// What the request stream reports to an upload, in the order the handler
/// meets it.
#[derive(Debug)]
pub enum UploadEvent {
    /// The stream has no further field: it ended, or it failed.
    StreamEnded,
    /// The stream offered another field.
    FieldOffered,
    /// The file name of the field admitted last.
    FieldNamed(String),
    /// A chunk of the field's content failed to arrive.
    ContentFailed,
    /// The whole content of the field arrived; `extension` is the one that
    /// was accepted for it.
    ContentRead { content: Vec<u8>, extension: String },
}

/// What the handler does next.
#[derive(Debug)]
pub enum UploadAction {
    /// Read the file name of the field just admitted.
    ReadFilename,
    /// Read the field's content; the file is stored under `extension`.
    ReadContent { extension: String },
    /// Write `content` at `path`, then ask the stream for the next field.
    Write { path: String, content: Vec<u8> },
    /// Stop reading fields; the request goes on with the images stored.
    Finish,
    /// Answer the request at once with this reply.
    Refuse(Reply),
}

/// An upload event as plain values.
pub enum UploadEventView {
    StreamEnded,
    FieldOffered,
    FieldNamed(Seq<char>),
    ContentFailed,
    ContentRead(Seq<u8>, Seq<char>),
}

/// An upload action as plain values.
pub enum UploadActionView {
    ReadFilename,
    ReadContent(Seq<char>),
    Write(Seq<char>, Seq<u8>),
    Finish,
    Refuse(Status, Seq<char>),
}

impl View for UploadEvent {
    type V = UploadEventView;

    open spec fn view(&self) -> UploadEventView {
        match self {
            UploadEvent::StreamEnded => UploadEventView::StreamEnded,
            UploadEvent::FieldOffered => UploadEventView::FieldOffered,
            UploadEvent::FieldNamed(n) => UploadEventView::FieldNamed(n@),
            UploadEvent::ContentFailed => UploadEventView::ContentFailed,
            UploadEvent::ContentRead { content, extension } => UploadEventView::ContentRead(
                content@,
                extension@,
            ),
        }
    }
}

impl View for UploadAction {
    type V = UploadActionView;

    open spec fn view(&self) -> UploadActionView {
        match self {
            UploadAction::ReadFilename => UploadActionView::ReadFilename,
            UploadAction::ReadContent { extension } => UploadActionView::ReadContent(extension@),
            UploadAction::Write { path, content } => UploadActionView::Write(path@, content@),
            UploadAction::Finish => UploadActionView::Finish,
            UploadAction::Refuse(r) => UploadActionView::Refuse(r.status, r.body@),
        }
    }
}

/// The state of an upload as plain values: how many fields were admitted,
/// and the names of the images stored, in order.
pub type UploadState = (nat, Seq<Seq<char>>);

/// One step of an upload: the state after `ev` and the action it calls for.
/// - The end (or failure) of the stream finishes the upload.
/// - A new field is admitted while fewer than twenty were; otherwise the
///   upload finishes.
/// - A file name is accepted with its lower-cased extension if that is an
///   image extension; otherwise the request is refused with
///   `403 non-image upload`.
/// - A failed chunk refuses the request with `403 incompleted upload`.
/// - A complete content is stored under its digest name and written there.
pub open spec fn upload_step(st: UploadState, ev: UploadEventView) -> (UploadState, UploadActionView) {
    match ev {
        UploadEventView::StreamEnded => (st, UploadActionView::Finish),
        UploadEventView::FieldOffered => if st.0 < MAX_IMAGES_PER_UPLOAD {
            ((st.0 + 1, st.1), UploadActionView::ReadFilename)
        } else {
            (st, UploadActionView::Finish)
        },
        UploadEventView::FieldNamed(name) => {
            let e = unicode_lowercase(extension_of(name));
            if is_image_extension(e) {
                (st, UploadActionView::ReadContent(e))
            } else {
                (st, UploadActionView::Refuse(Status::Forbidden, "non-image upload"@))
            }
        },
        UploadEventView::ContentFailed => (
            st,
            UploadActionView::Refuse(Status::Forbidden, "incompleted upload"@),
        ),
        UploadEventView::ContentRead(content, ext) => (
            (st.0, st.1.push(image_name(content, ext))),
            UploadActionView::Write(image_dir() + image_name(content, ext), content),
        ),
    }
}

/// The state after a sequence of events, and the actions they called for.
pub open spec fn upload_run(st: UploadState, evs: Seq<UploadEventView>) -> (UploadState, Seq<UploadActionView>)
    decreases evs.len(),
{
    if evs.len() == 0 {
        (st, Seq::empty())
    } else {
        let first = upload_step(st, evs[0]);
        let rest = upload_run(first.0, evs.drop_first());
        (rest.0, seq![first.1] + rest.1)
    }
}

/// Each event of a run calls for one action, and the action for a complete
/// content depends on that content and its extension alone: the content is
/// written at the path named by its digest and extension, whatever request
/// it came in and whatever came before it.
pub proof fn lemma_run_writes_by_content(st: UploadState, evs: Seq<UploadEventView>)
    ensures
        upload_run(st, evs).1.len() == evs.len(),
        forall|k: int|
            0 <= k < evs.len() ==> (#[trigger] evs[k] matches UploadEventView::ContentRead(c, e)
                ==> upload_run(st, evs).1[k] == UploadActionView::Write(image_dir() + image_name(c, e), c)),
    decreases evs.len(),
{
    if evs.len() > 0 {
        let first = upload_step(st, evs[0]);
        let tail = evs.drop_first();
        lemma_run_writes_by_content(first.0, tail);
        let acts = upload_run(st, evs).1;
        assert forall|k: int|
            0 <= k < evs.len() implies (#[trigger] evs[k] matches UploadEventView::ContentRead(c, e)
                ==> acts[k] == UploadActionView::Write(image_dir() + image_name(c, e), c)) by {
            if k > 0 {
                assert(evs[k] == tail[k - 1]);
                assert(acts[k] == upload_run(first.0, tail).1[k - 1]);
            }
        }
    }
}

/// Wherever two requests deliver the same content with the same extension,
/// whatever came before it in each, they write it to the same path.
pub proof fn lemma_same_content_same_path(
    st1: UploadState,
    evs1: Seq<UploadEventView>,
    st2: UploadState,
    evs2: Seq<UploadEventView>,
    k: int,
    l: int,
)
    requires
        0 <= k < evs1.len(),
        0 <= l < evs2.len(),
        evs1[k] is ContentRead,
        evs1[k] == evs2[l],
    ensures
        upload_run(st1, evs1).1[k] == upload_run(st2, evs2).1[l],
        upload_run(st1, evs1).1[k] is Write,
{
    lemma_run_writes_by_content(st1, evs1);
    lemma_run_writes_by_content(st2, evs2);
}

/// One form field of an upload request as plain values: its file name, and
/// its content, or `None` where a chunk of it failed to arrive.
pub type FieldView = (Seq<char>, Option<Seq<u8>>);

/// How an upload request ends.
pub enum UploadEnd {
    /// The fields were read; the request goes on with the stored images.
    Finished,
    /// The request is answered at once with this status and body.
    Refused(Status, Seq<char>),
}

/// An upload request as the handler runs it, field after field, through
/// `upload_step`: each field is offered, named and read; the request stops at
/// the first `Finish` or refusal, and the end of the stream finishes it. The
/// result is the final state, the files written as (path, content) in order,
/// and how the request ended.
pub open spec fn upload_request(st: UploadState, fields: Seq<FieldView>) -> (
    UploadState,
    Seq<(Seq<char>, Seq<u8>)>,
    UploadEnd,
)
    decreases fields.len(),
{
    if fields.len() == 0 {
        (upload_step(st, UploadEventView::StreamEnded).0, Seq::empty(), UploadEnd::Finished)
    } else {
        let offered = upload_step(st, UploadEventView::FieldOffered);
        if offered.1 is Finish {
            (offered.0, Seq::empty(), UploadEnd::Finished)
        } else {
            let named = upload_step(offered.0, UploadEventView::FieldNamed(fields[0].0));
            match named.1 {
                UploadActionView::ReadContent(e) => match fields[0].1 {
                    Some(c) => {
                        let read = upload_step(named.0, UploadEventView::ContentRead(c, e));
                        let rest = upload_request(read.0, fields.drop_first());
                        match read.1 {
                            UploadActionView::Write(p, w) => (rest.0, seq![(p, w)] + rest.1, rest.2),
                            _ => rest,
                        }
                    },
                    None => {
                        let failed = upload_step(named.0, UploadEventView::ContentFailed);
                        match failed.1 {
                            UploadActionView::Refuse(status, body) => (
                                failed.0,
                                Seq::empty(),
                                UploadEnd::Refused(status, body),
                            ),
                            _ => (failed.0, Seq::empty(), UploadEnd::Finished),
                        }
                    },
                },
                UploadActionView::Refuse(status, body) => (
                    named.0,
                    Seq::empty(),
                    UploadEnd::Refused(status, body),
                ),
                _ => (named.0, Seq::empty(), UploadEnd::Finished),
            }
        }
    }
}

/// The state of a fresh upload: no field admitted, no image stored.
pub open spec fn fresh_upload() -> UploadState {
    (0, Seq::empty())
}

proof fn lemma_request_cap(st: UploadState, fields: Seq<FieldView>)
    requires
        st.0 <= MAX_IMAGES_PER_UPLOAD,
        fields.len() > MAX_IMAGES_PER_UPLOAD - st.0,
    ensures
        upload_request(st, fields) == upload_request(
            st,
            fields.take(MAX_IMAGES_PER_UPLOAD - st.0),
        ),
    decreases fields.len(),
{
    let cut = fields.take(MAX_IMAGES_PER_UPLOAD - st.0);
    if st.0 == MAX_IMAGES_PER_UPLOAD {
        assert(cut.len() == 0);
    } else {
        assert(cut.len() > 0);
        assert(cut[0] == fields[0]);
        let offered = upload_step(st, UploadEventView::FieldOffered);
        let named = upload_step(offered.0, UploadEventView::FieldNamed(fields[0].0));
        if let UploadActionView::ReadContent(e) = named.1 {
            if let Some(c) = fields[0].1 {
                let read = upload_step(named.0, UploadEventView::ContentRead(c, e));
                assert(read.0.0 == st.0 + 1);
                assert(cut.drop_first() =~= fields.drop_first().take(
                    MAX_IMAGES_PER_UPLOAD - read.0.0,
                ));
                lemma_request_cap(read.0, fields.drop_first());
            }
        }
    }
}

/// An upload request with more than twenty fields comes to what the request
/// of its first twenty fields comes to: the same files written, the same
/// images stored, the same end. Later fields are never named, checked or
/// written.
pub proof fn lemma_request_first_twenty(fields: Seq<FieldView>)
    requires
        fields.len() > 20,
    ensures
        upload_request(fresh_upload(), fields) == upload_request(fresh_upload(), fields.take(20)),
{
    lemma_request_cap(fresh_upload(), fields);
}

/// The files under the image directory after `writes` are carried out in
/// order on `files`.
pub open spec fn apply_writes(files: Map<Seq<char>, Seq<u8>>, writes: Seq<(Seq<char>, Seq<u8>)>) -> Map<
    Seq<char>,
    Seq<u8>,
>
    decreases writes.len(),
{
    if writes.len() == 0 {
        files
    } else {
        apply_writes(files.insert(writes[0].0, writes[0].1), writes.drop_first())
    }
}

proof fn lemma_apply_writes_union(files: Map<Seq<char>, Seq<u8>>, writes: Seq<(Seq<char>, Seq<u8>)>)
    ensures
        apply_writes(files, writes) == files.union_prefer_right(
            apply_writes(Map::empty(), writes),
        ),
    decreases writes.len(),
{
    if writes.len() == 0 {
        assert(files.union_prefer_right(Map::empty()) =~= files);
    } else {
        let (k, v) = writes[0];
        let rest = writes.drop_first();
        lemma_apply_writes_union(files.insert(k, v), rest);
        lemma_apply_writes_union(Map::empty().insert(k, v), rest);
        let w = apply_writes(Map::empty(), rest);
        assert(files.insert(k, v).union_prefer_right(w) =~= files.union_prefer_right(
            Map::empty().insert(k, v).union_prefer_right(w),
        ));
    }
}

/// Running the same upload request twice leaves the same files as running it
/// once: the second run writes the same paths with the same contents, in the
/// same order, and ends the same way. Each written path is the image
/// directory followed by the name of the content's digest and an accepted
/// image extension.
pub proof fn lemma_repeated_upload_same_files(
    fields: Seq<FieldView>,
    files: Map<Seq<char>, Seq<u8>>,
)
    ensures
        ({
            let writes = upload_request(fresh_upload(), fields).1;
            apply_writes(apply_writes(files, writes), writes) == apply_writes(files, writes)
        }),
        forall|k: int|
            0 <= k < upload_request(fresh_upload(), fields).1.len() ==> exists|e: Seq<char>|
                is_image_extension(e) && (#[trigger] upload_request(fresh_upload(), fields).1[k]).0
                    == image_dir() + image_name(upload_request(fresh_upload(), fields).1[k].1, e),
{
    let writes = upload_request(fresh_upload(), fields).1;
    let w = apply_writes(Map::empty(), writes);
    lemma_apply_writes_union(files, writes);
    lemma_apply_writes_union(files.union_prefer_right(w), writes);
    assert(files.union_prefer_right(w).union_prefer_right(w) =~= files.union_prefer_right(w));
    lemma_request_writes_named(fresh_upload(), fields);
}

proof fn lemma_request_writes_named(st: UploadState, fields: Seq<FieldView>)
    ensures
        forall|k: int|
            0 <= k < upload_request(st, fields).1.len() ==> exists|e: Seq<char>|
                is_image_extension(e) && (#[trigger] upload_request(st, fields).1[k]).0
                    == image_dir() + image_name(upload_request(st, fields).1[k].1, e),
    decreases fields.len(),
{
    if fields.len() > 0 {
        let offered = upload_step(st, UploadEventView::FieldOffered);
        if !(offered.1 is Finish) {
            let named = upload_step(offered.0, UploadEventView::FieldNamed(fields[0].0));
            if let UploadActionView::ReadContent(e) = named.1 {
                if let Some(c) = fields[0].1 {
                    let read = upload_step(named.0, UploadEventView::ContentRead(c, e));
                    lemma_request_writes_named(read.0, fields.drop_first());
                    let ws = upload_request(st, fields).1;
                    let rest = upload_request(read.0, fields.drop_first()).1;
                    assert forall|k: int| 0 <= k < ws.len() implies exists|e2: Seq<char>|
                        is_image_extension(e2) && (#[trigger] ws[k]).0 == image_dir() + image_name(
                            ws[k].1,
                            e2,
                        ) by {
                        if k == 0 {
                            assert(is_image_extension(e));
                        } else {
                            assert(ws[k] == rest[k - 1]);
                        }
                    }
                }
            }
        }
    }
}

} // verus!
