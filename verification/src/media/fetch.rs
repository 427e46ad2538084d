//! Downloading assets, and making sure that what came is what the manifest says.

use crate::formats;
use crate::media::provenance::{ManifestEntry, MediaKind, Provenance};
use crate::text;
use vstd::prelude::*;

verus! {

broadcast use text::texts_push;

/// How the program calls itself when it downloads.
pub const DOWNLOAD_USER_AGENT: &'static str = "KAIC-media-pipeline/0.1 (personal local agent; +https://github.com/Kirpich-Space/kirpich-ai-core)";

/// How large an asset may be.
pub const MAX_ASSET_BYTES: u64 = 33_554_432;

/// How large a picture is at least.
pub const MIN_ASSET_BYTES: u64 = 64;

/// The format of a picture.
#[derive(Debug, Clone, Copy, PartialEq, Eq, Structural)]
pub enum ImageFormat {
    Jpeg,
    Png,
    Gif,
    WebP,
}

impl ImageFormat {
    /// The ending of a file of the format.
    pub open spec fn ending(self) -> Seq<char> {
        match self {
            ImageFormat::Jpeg => "jpg"@,
            ImageFormat::Png => "png"@,
            ImageFormat::Gif => "gif"@,
            ImageFormat::WebP => "webp"@,
        }
    }

    /// The ending of a file of the format.
    pub fn extension(self) -> (r: &'static str)
        ensures
            r@ == self.ending(),
    {
        match self {
            ImageFormat::Jpeg => "jpg",
            ImageFormat::Png => "png",
            ImageFormat::Gif => "gif",
            ImageFormat::WebP => "webp",
        }
    }
}

/// Whether bytes begin with a signature.
pub open spec fn begins(bytes: Seq<u8>, signature: Seq<u8>) -> bool {
    signature.is_prefix_of(bytes)
}

/// The format that the first bytes of a file show.
pub open spec fn format_of(bytes: Seq<u8>) -> Option<ImageFormat> {
    if begins(bytes, seq![0xffu8, 0xd8u8, 0xffu8]) {
        Some(ImageFormat::Jpeg)
    } else if begins(
        bytes,
        seq![0x89u8, 0x50u8, 0x4eu8, 0x47u8, 0x0du8, 0x0au8, 0x1au8, 0x0au8],
    ) {
        Some(ImageFormat::Png)
    } else if begins(bytes, seq![0x47u8, 0x49u8, 0x46u8, 0x38u8, 0x37u8, 0x61u8]) || begins(
        bytes,
        seq![0x47u8, 0x49u8, 0x46u8, 0x38u8, 0x39u8, 0x61u8],
    ) {
        Some(ImageFormat::Gif)
    } else if begins(bytes, seq![0x52u8, 0x49u8, 0x46u8, 0x46u8]) && bytes.len() >= 12 && begins(
        bytes.skip(8),
        seq![0x57u8, 0x45u8, 0x42u8, 0x50u8],
    ) {
        Some(ImageFormat::WebP)
    } else {
        None
    }
}

/// Whether bytes hold others from a position on.
pub fn bytes_at(bytes: &[u8], at: usize, signature: &[u8]) -> (r: bool)
    ensures
        r == (at <= bytes@.len() && begins(bytes@.skip(at as int), signature@)),
{
    if at > bytes.len() || signature.len() > bytes.len() - at {
        return false;
    }
    let mut i: usize = 0;
    while i < signature.len()
        invariant
            at <= bytes@.len(),
            bytes@.len() == bytes.len(),
            signature@.len() <= bytes@.len() - at,
            i <= signature@.len(),
            forall|k: int| 0 <= k < i ==> signature@[k] == bytes@.skip(at as int)[k],
        decreases signature@.len() - i,
    {
        assert(bytes@.skip(at as int)[i as int] == bytes@[at + i]);
        if signature[i] != bytes[at + i] {
            assert(begins(bytes@.skip(at as int), signature@) ==> signature@[i as int]
                == bytes@.skip(at as int).subrange(0, signature@.len() as int)[i as int]);
            return false;
        }
        i = i + 1;
    }
    assert(signature@ =~= bytes@.skip(at as int).subrange(0, signature@.len() as int));
    true
}

/// Finds the format of a picture by its first bytes. Neither the address nor
/// what the server says of it counts.
pub fn detect_image_format(bytes: &[u8]) -> (r: Option<ImageFormat>)
    ensures
        r == format_of(bytes@),
{
    assert(bytes@.skip(0) =~= bytes@);
    let jpeg: [u8; 3] = [0xff, 0xd8, 0xff];
    assert(jpeg@ =~= seq![0xffu8, 0xd8u8, 0xffu8]);
    if bytes_at(bytes, 0, jpeg.as_slice()) {
        return Some(ImageFormat::Jpeg);
    }
    let png: [u8; 8] = [0x89, 0x50, 0x4e, 0x47, 0x0d, 0x0a, 0x1a, 0x0a];
    assert(png@ =~= seq![0x89u8, 0x50u8, 0x4eu8, 0x47u8, 0x0du8, 0x0au8, 0x1au8, 0x0au8]);
    if bytes_at(bytes, 0, png.as_slice()) {
        return Some(ImageFormat::Png);
    }
    let gif87: [u8; 6] = [0x47, 0x49, 0x46, 0x38, 0x37, 0x61];
    let gif89: [u8; 6] = [0x47, 0x49, 0x46, 0x38, 0x39, 0x61];
    assert(gif87@ =~= seq![0x47u8, 0x49u8, 0x46u8, 0x38u8, 0x37u8, 0x61u8]);
    assert(gif89@ =~= seq![0x47u8, 0x49u8, 0x46u8, 0x38u8, 0x39u8, 0x61u8]);
    if bytes_at(bytes, 0, gif87.as_slice()) || bytes_at(bytes, 0, gif89.as_slice()) {
        return Some(ImageFormat::Gif);
    }
    let riff: [u8; 4] = [0x52, 0x49, 0x46, 0x46];
    let webp: [u8; 4] = [0x57, 0x45, 0x42, 0x50];
    assert(riff@ =~= seq![0x52u8, 0x49u8, 0x46u8, 0x46u8]);
    assert(webp@ =~= seq![0x57u8, 0x45u8, 0x42u8, 0x50u8]);
    if bytes.len() >= 12 && bytes_at(bytes, 0, riff.as_slice()) && bytes_at(
        bytes,
        8,
        webp.as_slice(),
    ) {
        return Some(ImageFormat::WebP);
    }
    None
}

/// An asset on disk.
#[derive(Debug, Clone, PartialEq, Eq)]
pub struct DownloadedAsset {
    pub asset_id: String,
    pub path: String,
    pub bytes: u64,
    pub format: ImageFormat,
}

/// Why an asset could not be had.
#[derive(Debug, Clone, PartialEq, Eq)]
pub enum FetchError {
    /// The asset is the user's own and lies on disk already.
    NotDownloadable { asset_id: String },
    Http { asset_id: String, detail: String },
    Empty { asset_id: String },
    TooLarge { asset_id: String, limit: u64 },
    /// What came is no picture of a known format.
    NotAnImage { asset_id: String, head: String },
    /// The manifest says that the asset is not a picture.
    KindMismatch { asset_id: String, declared: MediaKind },
    Io { asset_id: String, detail: String },
}

/// The name of a kind of asset.
pub open spec fn kind_name(kind: MediaKind) -> Seq<char> {
    match kind {
        MediaKind::Image => "Image"@,
        MediaKind::Video => "Video"@,
        MediaKind::Audio => "Audio"@,
    }
}

impl FetchError {
    /// The error in words.
    pub open spec fn words(&self) -> Seq<char> {
        match self {
            FetchError::NotDownloadable { asset_id } => asset_id@
                + ": нечего скачивать (материал пользователя)"@,
            FetchError::Http { asset_id, detail } => asset_id@ + ": ошибка загрузки — "@ + detail@,
            FetchError::Empty { asset_id } => asset_id@ + ": пустой файл"@,
            FetchError::TooLarge { asset_id, limit } => asset_id@ + ": файл превышает лимит "@
                + text::decimal(*limit as nat) + " байт"@,
            FetchError::NotAnImage { asset_id, head } => asset_id@
                + ": содержимое не является изображением (первые байты: "@ + head@ + ")"@,
            FetchError::KindMismatch { asset_id, declared } => asset_id@ + ": манифест заявляет "@
                + kind_name(*declared) + ", а скачано изображение"@,
            FetchError::Io { asset_id, detail } => asset_id@ + ": не удалось сохранить — "@
                + detail@,
        }
    }

    /// The error in words.
    pub fn message(&self) -> (r: String)
        ensures
            r@ == self.words(),
    {
        match self {
            FetchError::NotDownloadable { asset_id } => {
                let mut s = asset_id.clone();
                s.append(": нечего скачивать (материал пользователя)");
                s
            },
            FetchError::Http { asset_id, detail } => {
                let mut s = asset_id.clone();
                s.append(": ошибка загрузки — ");
                s.append(detail.as_str());
                s
            },
            FetchError::Empty { asset_id } => {
                let mut s = asset_id.clone();
                s.append(": пустой файл");
                s
            },
            FetchError::TooLarge { asset_id, limit } => {
                let mut s = asset_id.clone();
                s.append(": файл превышает лимит ");
                let n = text::show(*limit);
                s.append(n.as_str());
                s.append(" байт");
                s
            },
            FetchError::NotAnImage { asset_id, head } => {
                let mut s = asset_id.clone();
                s.append(": содержимое не является изображением (первые байты: ");
                s.append(head.as_str());
                s.append(")");
                s
            },
            FetchError::KindMismatch { asset_id, declared } => {
                let mut s = asset_id.clone();
                s.append(": манифест заявляет ");
                match declared {
                    MediaKind::Image => {
                        s.append("Image");
                    },
                    MediaKind::Video => {
                        s.append("Video");
                    },
                    MediaKind::Audio => {
                        s.append("Audio");
                    },
                }
                s.append(", а скачано изображение");
                s
            },
            FetchError::Io { asset_id, detail } => {
                let mut s = asset_id.clone();
                s.append(": не удалось сохранить — ");
                s.append(detail.as_str());
                s
            },
        }
    }
}

/// The address of an asset, where it is one to be downloaded.
pub fn downloadable_url(entry: &ManifestEntry) -> (r: Option<&str>)
    ensures
        match r {
            Some(url) => entry.provenance matches Provenance::Licensed(p) && url@ == p.asset_url@,
            None => entry.provenance is UserOwned,
        },
{
    match &entry.provenance {
        Provenance::Licensed(p) => Some(p.asset_url.as_str()),
        Provenance::UserOwned(_) => None,
    }
}

/// Two hexadecimal digits for a byte.
pub open spec fn hex_byte(b: u8) -> Seq<char> {
    seq![formats::hex_digit((b / 16) as nat), formats::hex_digit((b % 16) as nat)]
}

/// The first bytes of a file, for a reader.
pub open spec fn head_of(bytes: Seq<u8>) -> Seq<char> {
    let n: int = if bytes.len() < 8 {
        bytes.len() as int
    } else {
        8
    };
    text::joined(bytes.take(n).map_values(|b: u8| hex_byte(b)), " "@)
}

fn hex_char(d: u8) -> (r: char)
    requires
        d < 16,
    ensures
        r == formats::hex_digit(d as nat),
{
    if d < 10 {
        (48u8 + d) as char
    } else {
        (87u8 + d) as char
    }
}

/// The first bytes of a file in hexadecimal.
pub fn head_hex(bytes: &[u8]) -> (r: String)
    ensures
        r@ == head_of(bytes@),
{
    let n: usize = if bytes.len() < 8 {
        bytes.len()
    } else {
        8
    };
    let ghost wanted = bytes@.take(n as int).map_values(|b: u8| hex_byte(b));
    let mut parts: Vec<String> = Vec::new();
    let mut i: usize = 0;
    assert(text::texts(parts@) =~= wanted.take(0));
    while i < n
        invariant
            i <= n <= bytes@.len(),
            wanted == bytes@.take(n as int).map_values(|b: u8| hex_byte(b)),
            text::texts(parts@) == wanted.take(i as int),
        decreases n - i,
    {
        let b: u8 = bytes[i];
        let mut s = String::new();
        s.push(hex_char(b / 16));
        s.push(hex_char(b % 16));
        assert(s@ =~= hex_byte(b));
        parts.push(s);
        assert(wanted.take(i + 1) =~= wanted.take(i as int).push(wanted[i as int]));
        i = i + 1;
    }
    assert(wanted.take(n as int) =~= wanted);
    text::join(&parts, " ")
}

/// A character of an identifier as it stands in a file name.
pub open spec fn stem_char(c: char) -> char {
    if ('a' <= c && c <= 'z') || ('A' <= c && c <= 'Z') || ('0' <= c && c <= '9') || c == '-' {
        c
    } else {
        '_'
    }
}

/// An identifier as it stands in a file name.
pub open spec fn stem_of(asset_id: Seq<char>) -> Seq<char> {
    asset_id.map_values(|c: char| stem_char(c))
}

/// Makes a file name of an identifier: what is neither a Latin letter nor a digit
/// nor a hyphen becomes an underscore.
pub fn safe_file_stem(asset_id: &str) -> (r: String)
    ensures
        r@ == stem_of(asset_id@),
{
    let v = text::chars_of(asset_id);
    let mut out = String::new();
    let mut i: usize = 0;
    while i < v.len()
        invariant
            v@ == asset_id@,
            i <= v@.len(),
            out@ == stem_of(asset_id@).take(i as int),
        decreases v@.len() - i,
    {
        let c: char = v[i];
        let d: char = if ('a' <= c && c <= 'z') || ('A' <= c && c <= 'Z') || ('0' <= c && c <= '9')
            || c == '-' {
            c
        } else {
            '_'
        };
        out.push(d);
        assert(out@ =~= stem_of(asset_id@).take(i + 1));
        i = i + 1;
    }
    assert(stem_of(asset_id@).take(asset_id@.len() as int) =~= stem_of(asset_id@));
    out
}

/// An identifier's file name holds nothing but letters, digits, hyphens and
/// underscores, and has as many characters as the identifier.
pub proof fn law_file_names_are_safe(asset_id: Seq<char>)
    ensures
        stem_of(asset_id).len() == asset_id.len(),
        forall|i: int|
            0 <= i < stem_of(asset_id).len() ==> {
                let c = #[trigger] stem_of(asset_id)[i];
                c == '_' || c == stem_char(c)
            },
{
}

/// A download under way: what came so far, never more than is allowed.
pub struct Download {
    asset_id: String,
    body: Vec<u8>,
}

/// A download that came to its end.
pub struct Verified {
    pub asset_id: String,
    /// The name under which the file is to be stored.
    pub file_name: String,
    pub format: ImageFormat,
    pub body: Vec<u8>,
}

impl Download {
    /// The asset that is being downloaded.
    pub closed spec fn asset(&self) -> Seq<char> {
        self.asset_id@
    }

    /// What came so far.
    pub closed spec fn received(&self) -> Seq<u8> {
        self.body@
    }

    #[verifier::type_invariant]
    spec fn within_limit(self) -> bool {
        self.body@.len() <= MAX_ASSET_BYTES
    }

    /// Begins to download an asset: only a picture, and only one that is not the
    /// user's own. Gives the address too.
    pub fn start(entry: &ManifestEntry) -> (r: Result<(Download, String), FetchError>)
        ensures
            r is Ok <==> entry.kind == MediaKind::Image && entry.provenance is Licensed,
            r matches Ok(d) ==> d.0.asset() == entry.asset_id@ && d.0.received().len() == 0
                && d.1@ == entry.provenance->Licensed_0.asset_url@,
            r matches Err(e) ==> if entry.kind != MediaKind::Image {
                e == (FetchError::KindMismatch { asset_id: entry.asset_id, declared: entry.kind })
            } else {
                e == (FetchError::NotDownloadable { asset_id: entry.asset_id })
            },
    {
        if entry.kind != MediaKind::Image {
            return Err(
                FetchError::KindMismatch {
                    asset_id: entry.asset_id.clone(),
                    declared: entry.kind,
                },
            );
        }
        match downloadable_url(entry) {
            None => Err(FetchError::NotDownloadable { asset_id: entry.asset_id.clone() }),
            Some(url) => {
                let url = url.to_owned();
                Ok((Download { asset_id: entry.asset_id.clone(), body: Vec::new() }, url))
            },
        }
    }

    /// What is said of a request that failed.
    pub fn http_error(&self, detail: String) -> (r: FetchError)
        ensures
            r matches FetchError::Http { asset_id, detail: d } && asset_id@ == self.asset() && d
                == detail,
    {
        FetchError::Http { asset_id: self.asset_id.clone(), detail }
    }

    /// Looks at the status of an answer, a number and the way it is shown. Only
    /// with a success is there anything to take in.
    pub fn answered(&self, status: u16, shown: &str) -> (r: Result<(), FetchError>)
        ensures
            r is Ok <==> 200 <= status < 300,
            r matches Err(e) ==> (e matches FetchError::Http { asset_id, detail } && asset_id@
                == self.asset() && detail@ == "HTTP "@ + shown@),
    {
        if 200 <= status && status < 300 {
            return Ok(());
        }
        let mut detail = String::from_str("HTTP ");
        detail.append(shown);
        Err(self.http_error(detail))
    }

    /// What is said of a file that could not be stored.
    pub fn io_error(asset_id: &str, detail: String) -> (r: FetchError)
        ensures
            r matches FetchError::Io { asset_id: a, detail: d } && a@ == asset_id@ && d == detail,
    {
        FetchError::Io { asset_id: asset_id.to_owned(), detail }
    }

    /// Takes in a piece of the file. The download is given up as soon as it would
    /// become too large.
    pub fn take_chunk(&mut self, chunk: &Vec<u8>) -> (r: Result<(), FetchError>)
        ensures
            final(self).asset() == old(self).asset(),
            r is Ok <==> old(self).received().len() + chunk@.len() <= MAX_ASSET_BYTES,
            r is Ok ==> final(self).received() == old(self).received() + chunk@,
            r matches Err(e) ==> final(self).received() == old(self).received() && (e
                matches FetchError::TooLarge { asset_id, limit } && asset_id@ == old(
                self,
            ).asset() && limit == MAX_ASSET_BYTES),
    {
        proof {
            use_type_invariant(&*self);
        }
        let have: u64 = self.body.len() as u64;
        let more: u64 = chunk.len() as u64;
        if more > MAX_ASSET_BYTES - have {
            return Err(
                FetchError::TooLarge { asset_id: self.asset_id.clone(), limit: MAX_ASSET_BYTES },
            );
        }
        let mut body: Vec<u8> = Vec::new();
        core::mem::swap(&mut body, &mut self.body);
        let ghost before = body@;
        let mut i: usize = 0;
        assert(before + chunk@.take(0) =~= before);
        while i < chunk.len()
            invariant
                i <= chunk@.len(),
                body@ == before + chunk@.take(i as int),
            decreases chunk@.len() - i,
        {
            body.push(chunk[i]);
            assert(before + chunk@.take(i + 1) =~= (before + chunk@.take(i as int)).push(
                chunk@[i as int],
            ));
            i = i + 1;
        }
        assert(chunk@.take(chunk@.len() as int) =~= chunk@);
        self.body = body;
        Ok(())
    }

    /// The file has come whole: it has to be large enough, and a picture of a
    /// known format.
    pub fn finish(self) -> (r: Result<Verified, FetchError>)
        ensures
            r is Ok <==> self.received().len() >= MIN_ASSET_BYTES && format_of(
                self.received(),
            ) is Some,
            r matches Ok(v) ==> {
                &&& v.asset_id@ == self.asset()
                &&& v.body@ == self.received()
                &&& format_of(self.received()) == Some(v.format)
                &&& v.file_name@ == stem_of(self.asset()) + "."@ + v.format.ending()
                &&& MIN_ASSET_BYTES <= v.body@.len() <= MAX_ASSET_BYTES
            },
            r matches Err(e) ==> if self.received().len() < MIN_ASSET_BYTES {
                e matches FetchError::Empty { asset_id } && asset_id@ == self.asset()
            } else {
                e matches FetchError::NotAnImage { asset_id, head } && asset_id@ == self.asset()
                    && head@ == head_of(self.received())
            },
    {
        proof {
            use_type_invariant(&self);
        }
        let Download { asset_id, body } = self;
        if (body.len() as u64) < MIN_ASSET_BYTES {
            return Err(FetchError::Empty { asset_id });
        }
        match detect_image_format(body.as_slice()) {
            None => {
                let head = head_hex(body.as_slice());
                Err(FetchError::NotAnImage { asset_id, head })
            },
            Some(format) => {
                let mut file_name = safe_file_stem(asset_id.as_str());
                file_name.append(".");
                file_name.append(format.extension());
                Ok(Verified { asset_id, file_name, format, body })
            },
        }
    }
}

/// Whether bytes begin with some others.
pub open spec fn opens_with(bytes: Seq<u8>, mark: Seq<u8>) -> bool {
    bytes.len() >= mark.len() && forall|i: int|
        0 <= i < mark.len() ==> #[trigger] bytes[i] == mark[i]
}

proof fn lemma_opens_with(bytes: Seq<u8>, mark: Seq<u8>)
    ensures
        begins(bytes, mark) <==> opens_with(bytes, mark),
{
    if begins(bytes, mark) {
        assert forall|i: int| 0 <= i < mark.len() implies #[trigger] bytes[i] == mark[i] by {
            assert(bytes.subrange(0, mark.len() as int)[i] == mark[i]);
        }
    }
    if opens_with(bytes, mark) {
        assert(mark =~= bytes.subrange(0, mark.len() as int));
    }
}

/// The format of a picture is told by its first bytes, and by nothing else: a JPEG by
/// three, a PNG by eight, a GIF by the six of either of its versions, a WebP by the four
/// at its start and the four behind the next four. Anything else is no picture.
pub proof fn law_a_picture_is_known_by_its_first_bytes(bytes: Seq<u8>)
    ensures
        format_of(bytes) == Some(ImageFormat::Jpeg) <==> opens_with(bytes, seq![255u8, 216, 255]),
        format_of(bytes) == Some(ImageFormat::Png) <==> opens_with(
            bytes,
            seq![137u8, 80, 78, 71, 13, 10, 26, 10],
        ),
        format_of(bytes) == Some(ImageFormat::Gif) <==> opens_with(
            bytes,
            seq![71u8, 73, 70, 56, 55, 97],
        ) || opens_with(bytes, seq![71u8, 73, 70, 56, 57, 97]),
        format_of(bytes) == Some(ImageFormat::WebP) <==> bytes.len() >= 12 && opens_with(
            bytes,
            seq![82u8, 73, 70, 70],
        ) && bytes[8] == 87 && bytes[9] == 69 && bytes[10] == 66 && bytes[11] == 80,
{
    lemma_opens_with(bytes, seq![0xffu8, 0xd8u8, 0xffu8]);
    lemma_opens_with(
        bytes,
        seq![0x89u8, 0x50u8, 0x4eu8, 0x47u8, 0x0du8, 0x0au8, 0x1au8, 0x0au8],
    );
    lemma_opens_with(bytes, seq![0x47u8, 0x49u8, 0x46u8, 0x38u8, 0x37u8, 0x61u8]);
    lemma_opens_with(bytes, seq![0x47u8, 0x49u8, 0x46u8, 0x38u8, 0x39u8, 0x61u8]);
    lemma_opens_with(bytes, seq![0x52u8, 0x49u8, 0x46u8, 0x46u8]);
    let webp = seq![0x57u8, 0x45u8, 0x42u8, 0x50u8];
    if bytes.len() >= 12 {
        let rest = bytes.skip(8);
        lemma_opens_with(rest, webp);
        assert(rest[0] == bytes[8] && rest[1] == bytes[9] && rest[2] == bytes[10] && rest[3]
            == bytes[11]);
        assert(webp[0] == 87 && webp[1] == 69 && webp[2] == 66 && webp[3] == 80);
        assert(opens_with(rest, webp) <==> rest[0] == webp[0] && rest[1] == webp[1] && rest[2]
            == webp[2] && rest[3] == webp[3]);
    }
    let jpeg = seq![0xffu8, 0xd8u8, 0xffu8];
    let png = seq![0x89u8, 0x50u8, 0x4eu8, 0x47u8, 0x0du8, 0x0au8, 0x1au8, 0x0au8];
    let gif = seq![0x47u8, 0x49u8, 0x46u8, 0x38u8, 0x37u8, 0x61u8];
    let gif2 = seq![0x47u8, 0x49u8, 0x46u8, 0x38u8, 0x39u8, 0x61u8];
    let riff = seq![0x52u8, 0x49u8, 0x46u8, 0x46u8];
    assert(opens_with(bytes, jpeg) ==> bytes[0] == jpeg[0]);
    assert(opens_with(bytes, png) ==> bytes[0] == png[0]);
    assert(opens_with(bytes, gif) ==> bytes[0] == gif[0]);
    assert(opens_with(bytes, gif2) ==> bytes[0] == gif2[0]);
    assert(opens_with(bytes, riff) ==> bytes[0] == riff[0]);
}

/// A file has the name of its asset: letters and digits of the Latin alphabet and hyphens
/// stay, and every other character becomes an underscore, so that no part of the name
/// leads elsewhere.
pub proof fn law_a_file_is_named_after_its_asset(asset_id: Seq<char>, i: int)
    ensures
        stem_of(asset_id).len() == asset_id.len(),
        0 <= i < asset_id.len() ==> {
            let c = asset_id[i];
            let plain = 'a' <= c <= 'z' || 'A' <= c <= 'Z' || '0' <= c <= '9' || c == '-';
            &&& plain ==> stem_of(asset_id)[i] == c
            &&& !plain ==> stem_of(asset_id)[i] == '_'
        },
{
}

/// Each format has its own ending.
pub proof fn law_formats_have_their_endings()
    ensures
        ImageFormat::Jpeg.ending() == "jpg"@,
        ImageFormat::Png.ending() == "png"@,
        ImageFormat::Gif.ending() == "gif"@,
        ImageFormat::WebP.ending() == "webp"@,
{
}

/// Of a file that is no picture the first eight bytes are shown, or all of fewer, each by
/// its two hexadecimal digits, the higher first.
pub proof fn law_the_first_bytes_are_shown(bytes: Seq<u8>, b: u8)
    ensures
        bytes.len() < 8 ==> head_of(bytes) == text::joined(
            bytes.map_values(|x: u8| hex_byte(x)),
            " "@,
        ),
        bytes.len() >= 8 ==> head_of(bytes) == text::joined(
            bytes.subrange(0, 8).map_values(|x: u8| hex_byte(x)),
            " "@,
        ),
        hex_byte(b).len() == 2,
        hex_byte(b)[0] == "0123456789abcdef"@[b as int / 16],
        hex_byte(b)[1] == "0123456789abcdef"@[b as int % 16],
{
    reveal_strlit("0123456789abcdef");
    if bytes.len() < 8 {
        assert(bytes.take(bytes.len() as int) =~= bytes);
    } else {
        assert(bytes.take(8) =~= bytes.subrange(0, 8));
    }
}

/// Every error names its asset first, and tells what it has of its own.
pub proof fn law_a_download_error_names_its_asset(e: FetchError)
    ensures
        e matches FetchError::NotDownloadable { asset_id } ==> asset_id@.is_prefix_of(e.words()),
        e matches FetchError::Empty { asset_id } ==> asset_id@.is_prefix_of(e.words()),
        e matches FetchError::Http { asset_id, detail } ==> e.words() == asset_id@
            + ": ошибка загрузки — "@ + detail@,
        e matches FetchError::Io { asset_id, detail } ==> e.words() == asset_id@
            + ": не удалось сохранить — "@ + detail@,
        e matches FetchError::TooLarge { asset_id, limit } ==> e.words() == asset_id@
            + ": файл превышает лимит "@ + text::decimal(limit as nat) + " байт"@,
        e matches FetchError::NotAnImage { asset_id, head } ==> e.words() == asset_id@
            + ": содержимое не является изображением (первые байты: "@ + head@ + ")"@,
        e matches FetchError::KindMismatch { asset_id, declared } ==> e.words() == asset_id@
            + ": манифест заявляет "@ + (match declared {
            MediaKind::Image => "Image"@,
            MediaKind::Video => "Video"@,
            MediaKind::Audio => "Audio"@,
        }) + ", а скачано изображение"@,
{
    match e {
        FetchError::NotDownloadable { asset_id } => {
            assert(asset_id@ =~= e.words().subrange(0, asset_id@.len() as int));
        },
        FetchError::Empty { asset_id } => {
            assert(asset_id@ =~= e.words().subrange(0, asset_id@.len() as int));
        },
        _ => {},
    }
}

} // verus!
