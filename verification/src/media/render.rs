//! Rendering: what `ffmpeg` is told, and whether what it made is a video.

use crate::media::fetch;
use crate::media::fetch::DownloadedAsset;
use crate::text;
use vstd::prelude::*;

verus! {

broadcast use text::texts_push;

/// The program that renders.
pub const FFMPEG_BIN: &'static str = "ffmpeg";

/// For how many seconds a picture is shown.
pub const SECONDS_PER_IMAGE: u32 = 3;

/// How many frames a second has.
pub const OUTPUT_FPS: u32 = 30;

/// How many seconds a rendering may take.
pub const RENDER_TIMEOUT_SECONDS: u64 = 300;

/// The font of the credits.
pub const FONT_PATH: &'static str = "C:/Windows/Fonts/arial.ttf";

/// The name of the file that holds the credits, in the directory of a rendering.
pub const CREDITS_FILE: &'static str = "credits.txt";

/// The name of the video, in the directory of a rendering.
pub const OUTPUT_FILE: &'static str = "render.mp4";

/// A rendered video.
#[derive(Debug, Clone, PartialEq, Eq)]
pub struct RenderOutcome {
    pub path: String,
    pub bytes: u64,
    pub elapsed_ms: u128,
}

/// Why there is no video.
#[derive(Debug, Clone, PartialEq, Eq)]
pub enum RenderError {
    FfmpegUnavailable,
    NoInputs,
    Spawn(String),
    /// The program ended with an error.
    Failed { code: Option<i32>, stderr_tail: String },
    TimedOut { seconds: u64 },
    Io(String),
    /// The program reported success and made an empty file.
    EmptyOutput,
    /// The program reported success and made something else.
    NotAnMp4 { head: String },
}

impl RenderError {
    /// The error in words.
    pub open spec fn words(&self) -> Seq<char> {
        match self {
            RenderError::FfmpegUnavailable => {
                "ffmpeg не найден в PATH — установите его и повторите (сами мы его не ставим)"@
            },
            RenderError::NoInputs => "нечего рендерить: нет ни одного файла"@,
            RenderError::Spawn(detail) => "не удалось запустить ffmpeg: "@ + detail@,
            RenderError::Failed { code, stderr_tail } => match code {
                Some(c) => "ffmpeg завершился с кодом "@ + text::signed_decimal(*c as int) + ": "@
                    + stderr_tail@,
                None => "ffmpeg прерван сигналом: "@ + stderr_tail@,
            },
            RenderError::TimedOut { seconds } => "ffmpeg не уложился в "@ + text::decimal(
                *seconds as nat,
            ) + " с и был снят"@,
            RenderError::Io(detail) => "ошибка файловой системы: "@ + detail@,
            RenderError::EmptyOutput => "ffmpeg отчитался об успехе, но файл пуст"@,
            RenderError::NotAnMp4 { head } => "результат не является MP4 (первые байты: "@ + head@
                + ")"@,
        }
    }

    /// The error in words.
    pub fn message(&self) -> (r: String)
        ensures
            r@ == self.words(),
    {
        match self {
            RenderError::FfmpegUnavailable => String::from_str(
                "ffmpeg не найден в PATH — установите его и повторите (сами мы его не ставим)",
            ),
            RenderError::NoInputs => String::from_str("нечего рендерить: нет ни одного файла"),
            RenderError::Spawn(detail) => {
                let mut s = String::from_str("не удалось запустить ffmpeg: ");
                s.append(detail.as_str());
                s
            },
            RenderError::Failed { code, stderr_tail } => match code {
                Some(c) => {
                    let mut s = String::from_str("ffmpeg завершился с кодом ");
                    let n = text::show_signed(*c as i64);
                    s.append(n.as_str());
                    s.append(": ");
                    s.append(stderr_tail.as_str());
                    s
                },
                None => {
                    let mut s = String::from_str("ffmpeg прерван сигналом: ");
                    s.append(stderr_tail.as_str());
                    s
                },
            },
            RenderError::TimedOut { seconds } => {
                let mut s = String::from_str("ffmpeg не уложился в ");
                let n = text::show(*seconds);
                s.append(n.as_str());
                s.append(" с и был снят");
                s
            },
            RenderError::Io(detail) => {
                let mut s = String::from_str("ошибка файловой системы: ");
                s.append(detail.as_str());
                s
            },
            RenderError::EmptyOutput => String::from_str(
                "ffmpeg отчитался об успехе, но файл пуст",
            ),
            RenderError::NotAnMp4 { head } => {
                let mut s = String::from_str("результат не является MP4 (первые байты: ");
                s.append(head.as_str());
                s.append(")");
                s
            },
        }
    }
}

/// A character of a path as it is written in a filter.
pub open spec fn filter_char(c: char) -> Seq<char> {
    if c == '\\' {
        "/"@
    } else if c == ':' {
        "\\:"@
    } else {
        seq![c]
    }
}

/// A path as it is written in a filter.
pub open spec fn filter_path(s: Seq<char>) -> Seq<char>
    decreases s.len(),
{
    if s.len() == 0 {
        Seq::empty()
    } else {
        filter_path(s.drop_last()) + filter_char(s.last())
    }
}

/// Writes a path for a filter, in which a colon has a meaning of its own.
pub fn escape_filter_path(path: &str) -> (r: String)
    ensures
        r@ == filter_path(path@),
{
    let v = text::chars_of(path);
    let mut out = String::new();
    let mut i: usize = 0;
    assert(path@.take(0) =~= Seq::<char>::empty());
    while i < v.len()
        invariant
            v@ == path@,
            i <= v@.len(),
            out@ == filter_path(path@.take(i as int)),
        decreases v@.len() - i,
    {
        let c: char = v[i];
        assert(path@.take(i + 1).drop_last() =~= path@.take(i as int));
        assert(path@.take(i + 1).last() == c);
        if c == '\\' {
            out.append("/");
        } else if c == ':' {
            out.append("\\:");
        } else {
            let ghost before = out@;
            out.push(c);
            assert(out@ =~= before + seq![c]);
        }
        i = i + 1;
    }
    assert(path@.take(path@.len() as int) =~= path@);
    out
}

/// The part of the filter that brings a picture to the size of the frame.
pub open spec fn chain(i: nat) -> Seq<char> {
    "["@ + text::decimal(i)
        + ":v]scale=1280:720:force_original_aspect_ratio=decrease,pad=1280:720:(ow-iw)/2:(oh-ih)/2,setsar=1[v"@
        + text::decimal(i) + "]"@
}

/// The parts of the filter for the first `n` pictures.
pub open spec fn chains(n: nat) -> Seq<Seq<char>> {
    Seq::new(n, |i: int| chain(i as nat))
}

/// The names of the first `n` pictures in the filter.
pub open spec fn labels(n: nat) -> Seq<char>
    decreases n,
{
    if n == 0 {
        Seq::empty()
    } else {
        labels((n - 1) as nat) + "[v"@ + text::decimal((n - 1) as nat) + "]"@
    }
}

/// The whole filter: each picture at the size of the frame, one after the other,
/// with the credits over them.
pub open spec fn filter_of(n: nat, credits_file: Seq<char>) -> Seq<char> {
    text::joined(chains(n), ";"@) + ";"@ + labels(n) + "concat=n="@ + text::decimal(n)
        + ":v=1:a=0[vc];[vc]drawtext=fontfile='"@ + filter_path(FONT_PATH@) + "':textfile='"@
        + filter_path(credits_file)
        + "':x=20:y=h-th-20:fontsize=20:fontcolor=white:box=1:boxcolor=black@0.6:boxborderw=10[vout]"@
}

/// Writes the filter for a number of pictures and the file that holds the
/// credits.
pub fn build_filter_complex(input_count: usize, credits_file: &str) -> (r: String)
    ensures
        r@ == filter_of(input_count as nat, credits_file@),
{
    let mut parts: Vec<String> = Vec::new();
    let mut names = String::new();
    let mut i: usize = 0;
    assert(text::texts(parts@) =~= chains(0));
    while i < input_count
        invariant
            i <= input_count,
            text::texts(parts@) == chains(i as nat),
            names@ == labels(i as nat),
        decreases input_count - i,
    {
        let n = text::show(i as u64);
        let mut part = String::from_str("[");
        part.append(n.as_str());
        part.append(
            ":v]scale=1280:720:force_original_aspect_ratio=decrease,pad=1280:720:(ow-iw)/2:(oh-ih)/2,setsar=1[v",
        );
        part.append(n.as_str());
        part.append("]");
        parts.push(part);
        assert(chains((i + 1) as nat) =~= chains(i as nat).push(chain(i as nat)));
        names.append("[v");
        names.append(n.as_str());
        names.append("]");
        i = i + 1;
    }
    let mut s = text::join(&parts, ";");
    s.append(";");
    s.append(names.as_str());
    s.append("concat=n=");
    let n = text::show(input_count as u64);
    s.append(n.as_str());
    s.append(":v=1:a=0[vc];[vc]drawtext=fontfile='");
    let font = escape_filter_path(FONT_PATH);
    s.append(font.as_str());
    s.append("':textfile='");
    let file = escape_filter_path(credits_file);
    s.append(file.as_str());
    s.append(
        "':x=20:y=h-th-20:fontsize=20:fontcolor=white:box=1:boxcolor=black@0.6:boxborderw=10[vout]",
    );
    s
}

/// The arguments that bring in the first pictures.
pub open spec fn input_args(files: Seq<DownloadedAsset>) -> Seq<Seq<char>>
    decreases files.len(),
{
    if files.len() == 0 {
        Seq::empty()
    } else {
        input_args(files.drop_last()).push("-loop"@).push("1"@).push("-t"@).push(
            text::decimal(SECONDS_PER_IMAGE as nat),
        ).push("-i"@).push(files.last().path@)
    }
}

/// The arguments of `ffmpeg`: an existing output is replaced, each picture is
/// shown for its time, then the filter and the output.
pub open spec fn args_of(files: Seq<DownloadedAsset>, filter: Seq<char>, output: Seq<char>) -> Seq<
    Seq<char>,
> {
    seq!["-y"@] + input_args(files) + seq![
        "-filter_complex"@,
        filter,
        "-map"@,
        "[vout]"@,
        "-c:v"@,
        "libx264"@,
        "-pix_fmt"@,
        "yuv420p"@,
        "-r"@,
        text::decimal(OUTPUT_FPS as nat),
        output,
    ]
}

/// The arguments of `ffmpeg`, each one separately.
pub fn build_args(files: &Vec<DownloadedAsset>, filter: &str, output: &str) -> (r: Vec<String>)
    ensures
        text::texts(r@) == args_of(files@, filter@, output@),
{
    let mut args: Vec<String> = Vec::new();
    args.push(String::from_str("-y"));
    let ghost head = seq!["-y"@];
    assert(text::texts(args@) =~= head);
    let mut i: usize = 0;
    assert(files@.take(0) =~= Seq::<DownloadedAsset>::empty());
    assert(head + input_args(files@.take(0)) =~= head);
    while i < files.len()
        invariant
            i <= files@.len(),
            head == seq!["-y"@],
            text::texts(args@) == head + input_args(files@.take(i as int)),
        decreases files@.len() - i,
    {
        assert(files@.take(i + 1).drop_last() =~= files@.take(i as int));
        args.push(String::from_str("-loop"));
        args.push(String::from_str("1"));
        args.push(String::from_str("-t"));
        args.push(text::show(SECONDS_PER_IMAGE as u64));
        args.push(String::from_str("-i"));
        args.push(files[i].path.clone());
        assert(text::texts(args@) =~= head + input_args(files@.take(i + 1)));
        i = i + 1;
    }
    assert(files@.take(files@.len() as int) =~= files@);
    args.push(String::from_str("-filter_complex"));
    args.push(filter.to_owned());
    args.push(String::from_str("-map"));
    args.push(String::from_str("[vout]"));
    args.push(String::from_str("-c:v"));
    args.push(String::from_str("libx264"));
    args.push(String::from_str("-pix_fmt"));
    args.push(String::from_str("yuv420p"));
    args.push(String::from_str("-r"));
    args.push(text::show(OUTPUT_FPS as u64));
    args.push(output.to_owned());
    assert(text::texts(args@) =~= args_of(files@, filter@, output@));
    args
}

/// Whether bytes begin as an MP4 file does.
pub open spec fn is_mp4(bytes: Seq<u8>) -> bool {
    bytes.len() >= 12 && fetch::begins(bytes.skip(4), seq![0x66u8, 0x74u8, 0x79u8, 0x70u8])
}

/// Whether bytes begin as an MP4 file does.
pub fn looks_like_mp4(bytes: &[u8]) -> (r: bool)
    ensures
        r == is_mp4(bytes@),
{
    let mark: [u8; 4] = [0x66, 0x74, 0x79, 0x70];
    assert(mark@ =~= seq![0x66u8, 0x74u8, 0x79u8, 0x70u8]);
    bytes.len() >= 12 && fetch::bytes_at(bytes, 4, mark.as_slice())
}

/// The lines that are not blank.
pub open spec fn content_lines(lines: Seq<Seq<char>>) -> Seq<Seq<char>>
    decreases lines.len(),
{
    if lines.len() == 0 {
        Seq::empty()
    } else if text::is_blank(lines.last()) {
        content_lines(lines.drop_last())
    } else {
        content_lines(lines.drop_last()).push(lines.last())
    }
}

/// The last `count` of several lines, in one.
pub open spec fn tail_of(lines: Seq<Seq<char>>, count: nat) -> Seq<char> {
    text::joined(
        if lines.len() > count {
            lines.skip(lines.len() - count)
        } else {
            lines
        },
        " | "@,
    )
}

/// The last lines of a text that are not blank, in one line.
pub fn tail_lines(s: &str, count: usize) -> (r: String)
    ensures
        r@ == tail_of(content_lines(text::lines(s@)), count as nat),
{
    let all = text::split_lines(s);
    let ghost lines = text::lines(s@);
    let mut content: Vec<String> = Vec::new();
    let mut i: usize = 0;
    assert(lines.take(0) =~= Seq::<Seq<char>>::empty());
    assert(text::texts(content@) =~= Seq::<Seq<char>>::empty());
    while i < all.len()
        invariant
            i <= all@.len(),
            lines == text::texts(all@),
            text::texts(content@) == content_lines(lines.take(i as int)),
        decreases all@.len() - i,
    {
        assert(lines.take(i + 1).drop_last() =~= lines.take(i as int));
        assert(lines.take(i + 1).last() == all@[i as int]@);
        if !text::blank(all[i].as_str()) {
            content.push(all[i].clone());
        }
        i = i + 1;
    }
    assert(lines.take(lines.len() as int) =~= lines);
    let ghost kept = text::texts(content@);
    let start: usize = if content.len() > count {
        content.len() - count
    } else {
        0
    };
    let mut last: Vec<String> = Vec::new();
    let mut j: usize = start;
    assert(text::texts(last@) =~= kept.subrange(start as int, start as int));
    while j < content.len()
        invariant
            start <= j <= content@.len(),
            kept == text::texts(content@),
            text::texts(last@) == kept.subrange(start as int, j as int),
        decreases content@.len() - j,
    {
        last.push(content[j].clone());
        assert(kept.subrange(start as int, j + 1) =~= kept.subrange(start as int, j as int).push(
            kept[j as int],
        ));
        j = j + 1;
    }
    assert(kept.subrange(start as int, kept.len() as int) =~= kept.skip(start as int));
    assert(start == 0 ==> kept.skip(0) =~= kept);
    text::join(&last, " | ")
}

/// How the program ended.
pub enum ProcessEnd {
    /// It could not be started.
    NotStarted(String),
    /// It took too long and was stopped.
    TimedOut,
    /// It ended: with success or not, with a code where it has one, and with what
    /// it wrote on its error output.
    Exited { success: bool, code: Option<i32>, stderr: String },
}

/// What is to be done before rendering: there have to be pictures, and the
/// program. Gives its arguments.
pub fn prepare_render(
    files: &Vec<DownloadedAsset>,
    ffmpeg_available: bool,
    credits_file: &str,
    output: &str,
) -> (r: Result<Vec<String>, RenderError>)
    ensures
        r is Ok <==> files@.len() > 0 && ffmpeg_available,
        r matches Ok(args) ==> text::texts(args@) == args_of(
            files@,
            filter_of(files@.len(), credits_file@),
            output@,
        ),
        r matches Err(e) ==> e == if files@.len() == 0 {
            RenderError::NoInputs
        } else {
            RenderError::FfmpegUnavailable
        },
{
    if files.len() == 0 {
        return Err(RenderError::NoInputs);
    }
    if !ffmpeg_available {
        return Err(RenderError::FfmpegUnavailable);
    }
    let filter = build_filter_complex(files.len(), credits_file);
    Ok(build_args(files, filter.as_str(), output))
}

/// Whether the program did its work.
pub fn check_exit(end: ProcessEnd) -> (r: Result<(), RenderError>)
    ensures
        r is Ok <==> (end matches ProcessEnd::Exited { success, .. } && success),
        r matches Err(e) ==> match end {
            ProcessEnd::NotStarted(detail) => e == RenderError::Spawn(detail),
            ProcessEnd::TimedOut => e == (RenderError::TimedOut { seconds: RENDER_TIMEOUT_SECONDS }),
            ProcessEnd::Exited { code, stderr, .. } => e matches RenderError::Failed {
                code: c,
                stderr_tail,
            } && c == code && stderr_tail@ == tail_of(
                content_lines(text::lines(stderr@)),
                3,
            ),
        },
{
    match end {
        ProcessEnd::NotStarted(detail) => Err(RenderError::Spawn(detail)),
        ProcessEnd::TimedOut => Err(RenderError::TimedOut { seconds: RENDER_TIMEOUT_SECONDS }),
        ProcessEnd::Exited { success, code, stderr } => {
            if success {
                Ok(())
            } else {
                let stderr_tail = tail_lines(stderr.as_str(), 3);
                Err(RenderError::Failed { code, stderr_tail })
            }
        },
    }
}

/// Whether what the program made is a video: a file that is not empty and whose
/// first bytes are those of an MP4 file. `head` are its first twelve bytes.
pub fn check_output(bytes: u64, head: &[u8]) -> (r: Result<(), RenderError>)
    ensures
        r is Ok <==> bytes != 0 && is_mp4(head@),
        r matches Err(e) ==> if bytes == 0 {
            e == RenderError::EmptyOutput
        } else {
            e matches RenderError::NotAnMp4 { head: h } && h@ == fetch::head_of(head@)
        },
{
    if bytes == 0 {
        return Err(RenderError::EmptyOutput);
    }
    if !looks_like_mp4(head) {
        return Err(RenderError::NotAnMp4 { head: fetch::head_hex(head) });
    }
    Ok(())
}

/// The label under which the picture at a place leaves its part of the filter: the
/// last characters of that part, from the last bracket that opens.
pub open spec fn is_label_of(label: Seq<char>, part: Seq<char>) -> bool {
    &&& label.len() >= 3
    &&& label.len() <= part.len()
    &&& label == part.skip(part.len() - label.len())
    &&& label[0] == '['
    &&& label.last() == ']'
    &&& forall|i: int| 0 < i < label.len() ==> #[trigger] label[i] != '['
}

proof fn lemma_label_of(i: nat)
    ensures
        is_label_of("[v"@ + text::decimal(i) + "]"@, chain(i)),
        ("["@ + text::decimal(i) + ":v]scale=1280:720"@).is_prefix_of(chain(i)),
{
    reveal_strlit("[v");
    reveal_strlit("]");
    reveal_strlit("[");
    reveal_strlit(":v]scale=1280:720");
    reveal_strlit(
        ":v]scale=1280:720:force_original_aspect_ratio=decrease,pad=1280:720:(ow-iw)/2:(oh-ih)/2,setsar=1[v",
    );
    text::law_decimal_is_read_back(i);
    let d = text::decimal(i);
    let long =
        ":v]scale=1280:720:force_original_aspect_ratio=decrease,pad=1280:720:(ow-iw)/2:(oh-ih)/2,setsar=1[v"@;
    let label = "[v"@ + d + "]"@;
    let part = chain(i);
    assert(part =~= ("["@ + d + long.take(long.len() - 2)) + label);
    assert(label =~= part.skip(part.len() - label.len()));
    assert(label[0] == '[');
    assert(label.last() == ']');
    assert forall|k: int| 0 < k < label.len() implies #[trigger] label[k] != '[' by {
        if 2 <= k < label.len() - 1 {
            assert(label[k] == d[k - 2]);
        }
    }
    let head = "["@ + d + ":v]scale=1280:720"@;
    assert(head =~= part.subrange(0, head.len() as int));
}

proof fn lemma_labels_joined(n: nat, names: Seq<Seq<char>>)
    requires
        names.len() == n,
        forall|i: int| 0 <= i < n ==> #[trigger] names[i] == "[v"@ + text::decimal(i as nat) + "]"@,
    ensures
        labels(n) == text::joined(names, Seq::empty()),
    decreases n,
{
    if n > 0 {
        let before = names.drop_last();
        assert forall|i: int| 0 <= i < n - 1 implies #[trigger] before[i] == "[v"@ + text::decimal(
            i as nat,
        ) + "]"@ by {
            assert(before[i] == names[i]);
        }
        lemma_labels_joined((n - 1) as nat, before);
        assert(names[n - 1] == "[v"@ + text::decimal((n - 1) as nat) + "]"@);
        if n == 1 {
            assert(text::joined(before, Seq::empty()) =~= Seq::<char>::empty());
        }
        assert(labels(n) =~= text::joined(names, Seq::empty()));
    } else {
        assert(labels(n) =~= text::joined(names, Seq::empty()));
    }
}

/// Every picture is shown once, in its place: the filter brings each one to the size
/// of the frame in a part of its own, and then puts as many pictures together as there
/// are, the one at each place being the one that leaves the part at that place; no two
/// of them have the same label.
pub proof fn law_every_picture_is_shown_once(n: nat, credits_file: Seq<char>)
    ensures
        exists|parts: Seq<Seq<char>>, names: Seq<Seq<char>>, rest: Seq<char>|
            #![trigger text::joined(parts, ";"@), text::joined(names, Seq::empty()), rest.len()]
            {
                &&& parts.len() == n
                &&& names.len() == n
                &&& filter_of(n, credits_file) == text::joined(parts, ";"@) + ";"@ + text::joined(
                    names,
                    Seq::empty(),
                ) + "concat=n="@ + text::decimal(n) + ":v=1:a=0[vc]"@ + rest
                &&& forall|i: int|
                    0 <= i < n ==> ("["@ + text::decimal(i as nat)
                        + ":v]scale=1280:720"@).is_prefix_of(#[trigger] parts[i])
                &&& forall|i: int| 0 <= i < n ==> is_label_of(#[trigger] names[i], parts[i])
                &&& forall|i: int, j: int|
                    0 <= i < j < n ==> #[trigger] names[i] != #[trigger] names[j]
            },
{
    let parts = chains(n);
    let names = Seq::new(n, |i: int| "[v"@ + text::decimal(i as nat) + "]"@);
    lemma_labels_joined(n, names);
    reveal_strlit(":v=1:a=0[vc];[vc]drawtext=fontfile='");
    reveal_strlit(":v=1:a=0[vc]");
    let mid = ":v=1:a=0[vc];[vc]drawtext=fontfile='"@;
    let cut = ":v=1:a=0[vc]"@;
    assert(mid =~= cut + mid.skip(cut.len() as int));
    let tail = filter_path(FONT_PATH@) + "':textfile='"@ + filter_path(credits_file)
        + "':x=20:y=h-th-20:fontsize=20:fontcolor=white:box=1:boxcolor=black@0.6:boxborderw=10[vout]"@;
    let rest = mid.skip(cut.len() as int) + tail;
    let size = rest.len();
    assert(filter_of(n, credits_file) =~= text::joined(parts, ";"@) + ";"@ + text::joined(
        names,
        Seq::empty(),
    ) + "concat=n="@ + text::decimal(n) + cut + rest);
    assert forall|i: int| 0 <= i < n implies ("["@ + text::decimal(i as nat)
        + ":v]scale=1280:720"@).is_prefix_of(#[trigger] parts[i]) && is_label_of(names[i], parts[i]) by {
        lemma_label_of(i as nat);
    }
    assert forall|i: int, j: int| 0 <= i < j < n implies #[trigger] names[i]
        != #[trigger] names[j] by {
        let a = text::decimal(i as nat);
        let b = text::decimal(j as nat);
        if names[i] == names[j] {
            let x = "[v"@.len() as int;
            let y = "]"@.len() as int;
            assert(a =~= names[i].subrange(x, names[i].len() - y));
            assert(b =~= names[j].subrange(x, names[j].len() - y));
            text::law_decimals_differ(i as nat, j as nat);
        }
    }
}

/// The credits stand over the pictures: what was put together goes through one more
/// part, which reads them from their file and gives what the output takes.
pub proof fn law_credits_stand_over_the_pictures(n: nat, credits_file: Seq<char>)
    ensures
        ("':textfile='"@ + filter_path(credits_file)
            + "':x=20:y=h-th-20:fontsize=20:fontcolor=white:box=1:boxcolor=black@0.6:boxborderw=10[vout]"@).is_suffix_of(
            filter_of(n, credits_file),
        ),
        text::occurs("[vc]drawtext=fontfile='"@ + filter_path(FONT_PATH@), filter_of(n, credits_file)),
{
    let f = filter_of(n, credits_file);
    let end = "':textfile='"@ + filter_path(credits_file)
        + "':x=20:y=h-th-20:fontsize=20:fontcolor=white:box=1:boxcolor=black@0.6:boxborderw=10[vout]"@;
    assert(end =~= f.subrange(f.len() - end.len(), f.len() as int));
    reveal_strlit(":v=1:a=0[vc];[vc]drawtext=fontfile='");
    reveal_strlit("[vc]drawtext=fontfile='");
    let mid = ":v=1:a=0[vc];[vc]drawtext=fontfile='"@;
    let drawn = "[vc]drawtext=fontfile='"@;
    assert(mid.skip(mid.len() - drawn.len()) =~= drawn);
    let needle = drawn + filter_path(FONT_PATH@);
    let at = f.len() - end.len() - needle.len();
    assert(needle =~= f.skip(at).subrange(0, needle.len() as int));
    assert(needle.is_prefix_of(f.skip(at)));
}

proof fn lemma_input_args(files: Seq<DownloadedAsset>)
    ensures
        input_args(files).len() == 6 * files.len(),
        forall|i: int|
            0 <= i < files.len() ==> input_args(files).subrange(6 * i, 6 * i + 6) == seq![
                "-loop"@,
                "1"@,
                "-t"@,
                text::decimal(3),
                "-i"@,
                (#[trigger] files[i]).path@,
            ],
    decreases files.len(),
{
    if files.len() > 0 {
        let before = files.drop_last();
        lemma_input_args(before);
        let a = input_args(before);
        let b = input_args(files);
        assert forall|i: int| 0 <= i < files.len() implies b.subrange(6 * i, 6 * i + 6) == seq![
            "-loop"@,
            "1"@,
            "-t"@,
            text::decimal(3),
            "-i"@,
            (#[trigger] files[i]).path@,
        ] by {
            if i < before.len() {
                assert(before[i] == files[i]);
                assert(b.subrange(6 * i, 6 * i + 6) =~= a.subrange(6 * i, 6 * i + 6));
            } else {
                assert(b.subrange(6 * i, 6 * i + 6) =~= seq![
                    "-loop"@,
                    "1"@,
                    "-t"@,
                    text::decimal(3),
                    "-i"@,
                    files[i].path@,
                ]);
            }
        }
    }
}

/// The program is told of every picture in its order, each with a path of its own that
/// stands alone and with three seconds to be shown; of nothing else to read; of the
/// filter; and, last, of the output, which it may replace.
pub proof fn law_every_file_is_an_argument(
    files: Seq<DownloadedAsset>,
    filter: Seq<char>,
    output: Seq<char>,
    i: int,
)
    ensures
        ({
            let a = args_of(files, filter, output);
            let n = files.len() as int;
            &&& a.len() == 6 * n + 12
            &&& a[0] == "-y"@
            &&& 0 <= i < n ==> a.subrange(6 * i + 1, 6 * i + 7) == seq![
                "-loop"@,
                "1"@,
                "-t"@,
                text::decimal(3),
                "-i"@,
                files[i].path@,
            ]
            &&& a[6 * n + 1] == "-filter_complex"@
            &&& a[6 * n + 2] == filter
            &&& a[6 * n + 3] == "-map"@
            &&& a[6 * n + 4] == "[vout]"@
            &&& a[6 * n + 9] == "-r"@
            &&& a[6 * n + 10] == text::decimal(30)
            &&& a.last() == output
        }),
{
    lemma_input_args(files);
    let a = args_of(files, filter, output);
    if 0 <= i < files.len() {
        let f = files[i];
        assert(a.subrange(6 * i + 1, 6 * i + 7) =~= input_args(files).subrange(6 * i, 6 * i + 6));
    }
}

/// A path is written for a filter character by character: a backslash becomes a slash,
/// a colon gets a backslash before it, and every other character stays.
pub proof fn law_paths_are_escaped(path: Seq<char>, c: char)
    ensures
        filter_path(Seq::empty()).len() == 0,
        c == '\\' ==> filter_path(path.push(c)) == filter_path(path).push('/'),
        c == ':' ==> filter_path(path.push(c)) == filter_path(path).push('\\').push(':'),
        c != '\\' && c != ':' ==> filter_path(path.push(c)) == filter_path(path).push(c),
{
    assert(path.push(c).drop_last() =~= path);
    reveal_strlit("/");
    reveal_strlit("\\:");
    let before = filter_path(path);
    if c == '\\' {
        assert(filter_path(path.push(c)) =~= before.push('/'));
    } else if c == ':' {
        assert(filter_path(path.push(c)) =~= before.push('\\').push(':'));
    } else {
        assert(filter_path(path.push(c)) =~= before.push(c));
    }
}

/// A file is a video if, and only if, the four bytes behind its first four spell
/// `ftyp` and twelve bytes are there.
pub proof fn law_a_video_is_known_by_its_mark(bytes: Seq<u8>)
    ensures
        is_mp4(bytes) <==> bytes.len() >= 12 && bytes[4] == 102 && bytes[5] == 116 && bytes[6] == 121
            && bytes[7] == 112,
{
    let mark = seq![0x66u8, 0x74u8, 0x79u8, 0x70u8];
    if bytes.len() >= 12 {
        let s = bytes.skip(4);
        if bytes[4] == 102 && bytes[5] == 116 && bytes[6] == 121 && bytes[7] == 112 {
            assert(mark =~= s.subrange(0, 4));
        }
        if mark.is_prefix_of(s) {
            assert(s.subrange(0, 4)[0] == bytes[4] && s.subrange(0, 4)[1] == bytes[5] && s.subrange(
                0,
                4,
            )[2] == bytes[6] && s.subrange(0, 4)[3] == bytes[7]);
        }
    }
}

/// Of what the program wrote, the last lines that are not blank are shown: the blank
/// ones are left out and the others stay in their order.
pub proof fn law_the_last_lines_are_shown(lines: Seq<Seq<char>>, count: nat)
    ensures
        content_lines(lines) == lines.filter(|l: Seq<char>| !text::is_blank(l)),
        lines.len() <= count ==> tail_of(lines, count) == text::joined(lines, " | "@),
        lines.len() > count ==> tail_of(lines, count) == text::joined(
            lines.subrange(lines.len() - count, lines.len() as int),
            " | "@,
        ),
    decreases lines.len(),
{
    reveal(Seq::filter);
    if lines.len() > 0 {
        law_the_last_lines_are_shown(lines.drop_last(), count);
    } else {
        assert(lines =~= Seq::<Seq<char>>::empty());
    }
    if lines.len() > count {
        assert(lines.skip(lines.len() - count) =~= lines.subrange(
            lines.len() - count,
            lines.len() as int,
        ));
    }
}

/// Every error of a rendering tells what it has of its own.
pub proof fn law_a_render_error_tells_its_reason(e: RenderError)
    ensures
        e matches RenderError::Spawn(detail) ==> e.words() == "не удалось запустить ffmpeg: "@
            + detail@,
        e matches RenderError::Failed { code: Some(c), stderr_tail } ==> e.words()
            == "ffmpeg завершился с кодом "@ + text::signed_decimal(c as int) + ": "@ + stderr_tail@,
        e matches RenderError::Failed { code: None, stderr_tail } ==> e.words()
            == "ffmpeg прерван сигналом: "@ + stderr_tail@,
        e matches RenderError::TimedOut { seconds } ==> e.words() == "ffmpeg не уложился в "@
            + text::decimal(seconds as nat) + " с и был снят"@,
        e matches RenderError::Io(detail) ==> e.words() == "ошибка файловой системы: "@ + detail@,
        e matches RenderError::NotAnMp4 { head } ==> e.words()
            == "результат не является MP4 (первые байты: "@ + head@ + ")"@,
        e is NoInputs ==> e.words() == "нечего рендерить: нет ни одного файла"@,
        e is EmptyOutput ==> e.words() == "ffmpeg отчитался об успехе, но файл пуст"@,
{
}

} // verus!
