//! The local speech-to-text engine: where its program and models live, how
//! they are fetched, which language to ask for, and the cleaning of its output.
use vstd::prelude::*;
use crate::text::{
    chars_of, ends_with, has_prefix, has_suffix, line_views, lines_of, occurs_at, starts_with,
    str_eq, string_of, text_lines, total_len, trim_chars, trimmed,
};

verus! {

/// The whisper.cpp release whose command-line program is used.
pub open spec fn whisper_version() -> Seq<char> {
    "1.5.0"@
}

/// `name` is a single plain path component: not empty, not `.` or `..`,
/// and free of separators and drive markers.
pub open spec fn is_plain_component(name: Seq<char>) -> bool {
    &&& name.len() > 0
    &&& name != "."@
    &&& name != ".."@
    &&& forall|i: int|
        0 <= i < name.len() ==> #[trigger] name[i] != '/' && name[i] != '\\' && name[i] != ':'
}

/// `r` is what `Path::join` gives for `base` and the plain component `name`
/// on every platform, for a base that does not start with a backslash
/// (Windows prefixes such as `\\?\` start with one and change how paths
/// are joined): a separator, `/` or the platform's own, is put between
/// them exactly when `base` is not empty and does not already end in one.
pub open spec fn is_joined(r: Seq<char>, base: Seq<char>, name: Seq<char>) -> bool {
    !(base.len() > 0 && base[0] == '\\') ==> {
        &&& (base.len() == 0 || base.last() == '/') ==> r == base + name
        &&& (base.len() > 0 && base.last() == '\\') ==> (r == base + name || r == base + seq!['/']
            + name)
        &&& (base.len() > 0 && base.last() == ':') ==> (r == base + name || r == base + seq!['/']
            + name || r == base + seq!['\\'] + name)
        &&& (base.len() > 0 && base.last() != '/' && base.last() != '\\' && base.last() != ':')
            ==> (r == base + seq!['/'] + name || r == base + seq!['\\'] + name)
    }
}

/// Calls `std::path::Path::join` on `base` and `name` and returns the
/// result as text. For a plain component `name` and a base that does not
/// start with a backslash, the result is `base` followed by `name`, with a
/// separator between them when `base` is not empty and does not end in
/// one: `/` on every platform where only `/` separates, `/` or `\` on
/// Windows, where a base ending in a drive's `:` takes none. What the
/// result is for other names or bases is left unsaid.
#[verifier::external_body]
fn join_path(base: &str, name: &str) -> (r: String)
    ensures
        is_plain_component(name@) ==> is_joined(r@, base@, name@),
{
    std::path::Path::new(base).join(name).to_string_lossy().into_owned()
}

/// Calls `std::path::Path::exists`; the answer depends on the file system,
/// so nothing is stated of it.
#[verifier::external_body]
fn path_exists(path: &str) -> bool {
    std::path::Path::new(path).exists()
}

/// Manages a local whisper.cpp installation for speech-to-text transcription.
pub struct WhisperEngine {
    data_dir: String,
    ready: bool,
}

impl WhisperEngine {
    /// The directory holding the program and the models.
    pub closed spec fn dir(&self) -> Seq<char> {
        self.data_dir@
    }

    /// Whether the program and a model were made available.
    pub closed spec fn is_marked_ready(&self) -> bool {
        self.ready
    }

    /// An engine keeping its files in the `whisper` directory under `data_dir`.
    pub fn new(data_dir: &str) -> (r: WhisperEngine)
        ensures
            is_joined(r.dir(), data_dir@, "whisper"@),
            !r.is_marked_ready(),
    {
        proof {
            reveal_strlit("whisper");
            reveal_strlit(".");
            reveal_strlit("..");
        }
        WhisperEngine { data_dir: join_path(data_dir, "whisper"), ready: false }
    }

    /// The directory holding the program and the models.
    pub fn data_dir(&self) -> (r: String)
        ensures
            r@ == self.dir(),
    {
        self.data_dir.clone()
    }

    /// The file of the model `model_name`: `ggml-<model_name>.bin` in the data directory.
    pub fn model_path(&self, model_name: &str) -> (r: String)
        ensures
            is_plain_component(model_file_name(model_name@)) ==> is_joined(
                r@,
                self.dir(),
                model_file_name(model_name@),
            ),
    {
        let file = model_file(model_name);
        join_path(self.data_dir.as_str(), file.as_str())
    }

    /// The command-line program: `whisper-cli.exe` in the data directory.
    pub fn exe_path(&self) -> (r: String)
        ensures
            is_joined(r@, self.dir(), "whisper-cli.exe"@),
    {
        proof {
            reveal_strlit("whisper-cli.exe");
            reveal_strlit(".");
            reveal_strlit("..");
        }
        join_path(self.data_dir.as_str(), "whisper-cli.exe")
    }

    /// Where the downloaded release archive is kept while it is unpacked.
    pub fn archive_path(&self) -> (r: String)
        ensures
            is_joined(r@, self.dir(), "_whisper_download.zip"@),
    {
        proof {
            reveal_strlit("_whisper_download.zip");
            reveal_strlit(".");
            reveal_strlit("..");
        }
        join_path(self.data_dir.as_str(), "_whisper_download.zip")
    }

    /// Where the release archive is unpacked.
    pub fn extract_dir(&self) -> (r: String)
        ensures
            is_joined(r@, self.dir(), "_extract"@),
    {
        proof {
            reveal_strlit("_extract");
            reveal_strlit(".");
            reveal_strlit("..");
        }
        join_path(self.data_dir.as_str(), "_extract")
    }

    /// Where a recording is written before it is transcribed.
    pub fn recording_path(&self) -> (r: String)
        ensures
            is_joined(r@, self.dir(), "_temp_recording.wav"@),
    {
        proof {
            reveal_strlit("_temp_recording.wav");
            reveal_strlit(".");
            reveal_strlit("..");
        }
        join_path(self.data_dir.as_str(), "_temp_recording.wav")
    }

    /// Where the program may leave a transcript of the recording.
    pub fn recording_transcript_path(&self) -> (r: String)
        ensures
            is_joined(r@, self.dir(), "_temp_recording.wav.txt"@),
    {
        proof {
            reveal_strlit("_temp_recording.wav.txt");
            reveal_strlit(".");
            reveal_strlit("..");
        }
        join_path(self.data_dir.as_str(), "_temp_recording.wav.txt")
    }

    /// Where a library file named `name` from the release is installed.
    pub fn library_path(&self, name: &str) -> (r: String)
        ensures
            is_plain_component(name@) ==> is_joined(r@, self.dir(), name@),
    {
        join_path(self.data_dir.as_str(), name)
    }

    /// Whether both the binary and the requested model are present: the
    /// two file-system answers for `exe_path()` and `model_path(model_name)`,
    /// combined by `ready_from`.
    pub fn is_ready(&self, model_name: &str) -> bool {
        let exe = self.exe_path();
        let model = self.model_path(model_name);
        let exe_present = path_exists(exe.as_str());
        let model_present = path_exists(model.as_str());
        ready_from(exe_present, model_present)
    }

    /// Records that the program and a model are available.
    pub fn mark_ready(&mut self)
        ensures
            final(self).is_marked_ready(),
            final(self).dir() == old(self).dir(),
    {
        self.ready = true;
    }
}

/// Whether the engine is ready, given whether its program and the
/// requested model are present: both must be.
pub fn ready_from(exe_present: bool, model_present: bool) -> (r: bool)
    ensures
        r == (exe_present && model_present),
{
    exe_present && model_present
}

/// The file name of a model.
pub open spec fn model_file_name(model_name: Seq<char>) -> Seq<char> {
    "ggml-"@ + model_name + ".bin"@
}

/// The file name of the model `model_name`.
pub fn model_file(model_name: &str) -> (r: String)
    ensures
        r@ == model_file_name(model_name@),
{
    let mut r = "ggml-".to_owned();
    r.append(model_name);
    r.append(".bin");
    r
}

/// The address of the release archive of whisper.cpp `version`.
pub fn release_archive_url(version: &str) -> (r: String)
    ensures
        r@ == "https://github.com/ggerganov/whisper.cpp/releases/download/v"@ + version@
            + "/whisper-bin-x64.zip"@,
{
    let mut r = "https://github.com/ggerganov/whisper.cpp/releases/download/v".to_owned();
    r.append(version);
    r.append("/whisper-bin-x64.zip");
    r
}

/// The address of the release archive of the whisper.cpp version in use.
pub fn whisper_archive_url() -> (r: String)
    ensures
        r@ == "https://github.com/ggerganov/whisper.cpp/releases/download/v"@ + whisper_version()
            + "/whisper-bin-x64.zip"@,
{
    release_archive_url("1.5.0")
}

/// The download address of the model `model_name`.
pub fn model_download_url(model_name: &str) -> (r: String)
    ensures
        r@ == "https://huggingface.co/ggerganov/whisper.cpp/resolve/main/"@ + model_file_name(
            model_name@,
        ),
{
    let mut r = "https://huggingface.co/ggerganov/whisper.cpp/resolve/main/ggml-".to_owned();
    r.append(model_name);
    r.append(".bin");
    assert(r@ =~= "https://huggingface.co/ggerganov/whisper.cpp/resolve/main/"@ + model_file_name(
        model_name@,
    )) by {
        reveal_strlit("https://huggingface.co/ggerganov/whisper.cpp/resolve/main/ggml-");
        reveal_strlit("https://huggingface.co/ggerganov/whisper.cpp/resolve/main/");
        reveal_strlit("ggml-");
    }
    r
}

/// Whether an unpacked file is the command-line program.
pub fn is_cli_binary_name(name: &str) -> (r: bool)
    ensures
        r == (name@ == "whisper-cli.exe"@ || name@ == "main.exe"@),
{
    str_eq(name, "whisper-cli.exe") || str_eq(name, "main.exe")
}

/// Whether an unpacked file is a library the program needs.
pub fn is_library_name(name: &str) -> (r: bool)
    ensures
        r == has_suffix(name@, ".dll"@),
{
    ends_with(&chars_of(name), &chars_of(".dll"))
}

/// The language to ask for: English for the `base.en` model, else automatic detection.
pub fn transcription_language(model_name: &str) -> (r: &'static str)
    ensures
        r@ == if model_name@ == "base.en"@ {
            "en"@
        } else {
            "auto"@
        },
{
    if str_eq(model_name, "base.en") {
        "en"
    } else {
        "auto"
    }
}

/// Whether an output line of the program is transcription rather than
/// progress information.
pub open spec fn is_transcript_line(l: Seq<char>) -> bool {
    &&& !has_prefix(l, "whisper_"@)
    &&& !has_prefix(l, "main:"@)
    &&& !has_prefix(l, "system_info"@)
    &&& l.len() > 0
}

/// Transcript lines joined by single spaces.
pub open spec fn join_transcript(ls: Seq<Seq<char>>) -> Seq<char>
    decreases ls.len(),
{
    if ls.len() == 0 {
        Seq::empty()
    } else if ls.len() == 1 {
        ls[0]
    } else {
        join_transcript(ls.drop_last()) + seq![' '] + ls.last()
    }
}

/// The transcript lines of `ls`, in order.
pub open spec fn transcript_lines(ls: Seq<Seq<char>>) -> Seq<Seq<char>>
    decreases ls.len(),
{
    if ls.len() == 0 {
        Seq::empty()
    } else if is_transcript_line(ls.last()) {
        transcript_lines(ls.drop_last()).push(ls.last())
    } else {
        transcript_lines(ls.drop_last())
    }
}

/// The transcription in the program's output: its transcript lines joined
/// by spaces, trimmed.
pub open spec fn transcript_text(stdout: Seq<char>) -> Seq<char> {
    trimmed(join_transcript(transcript_lines(text_lines(stdout))))
}

/// Lines joined by single spaces contain every line, in order, each one
/// space after the previous one: line `i` starts after the lines before it
/// and one separating space per earlier line, a space follows every line
/// but the last, and the joined text is exactly that long.
pub proof fn law_joined_transcript_keeps_every_line(ls: Seq<Seq<char>>)
    ensures
        ls.len() > 0 ==> join_transcript(ls).len() == total_len(ls) + ls.len() - 1,
        forall|i: int|
            0 <= i < ls.len() ==> #[trigger] occurs_at(
                join_transcript(ls),
                ls[i],
                total_len(ls.take(i)) + i,
            ),
        forall|i: int|
            0 <= i < ls.len() - 1 ==> join_transcript(ls)[total_len(#[trigger] ls.take(i + 1)) + i]
                == ' ',
    decreases ls.len(),
{
    let j = join_transcript(ls);
    if ls.len() == 1 {
        assert(ls.take(0) =~= Seq::<Seq<char>>::empty());
        assert(ls.drop_last() =~= Seq::<Seq<char>>::empty());
        assert(total_len(ls.drop_last()) == 0);
        assert(j.subrange(0, ls[0].len() as int) =~= ls[0]);
    } else if ls.len() > 1 {
        let init = ls.drop_last();
        law_joined_transcript_keeps_every_line(init);
        let ji = join_transcript(init);
        assert(j =~= ji + seq![' '] + ls.last());
        assert forall|i: int| 0 <= i < ls.len() implies #[trigger] occurs_at(
            j,
            ls[i],
            total_len(ls.take(i)) + i,
        ) by {
            if i < ls.len() - 1 {
                assert(ls.take(i) =~= init.take(i));
                assert(ls[i] == init[i]);
                assert(occurs_at(ji, init[i], total_len(init.take(i)) + i));
                let o = total_len(ls.take(i)) + i;
                assert(j.subrange(o, o + ls[i].len()) =~= ji.subrange(o, o + ls[i].len()));
            } else {
                assert(ls.take(i) =~= init);
                assert(j.subrange(ji.len() + 1int, ji.len() + 1int + ls[i].len()) =~= ls.last());
            }
        }
        assert forall|i: int| 0 <= i < ls.len() - 1 implies j[total_len(#[trigger] ls.take(i + 1)) + i]
            == ' ' by {
            if i < ls.len() - 2 {
                assert(ls.take(i + 1) =~= init.take(i + 1));
                assert(ji[total_len(init.take(i + 1)) + i] == ' ');
                assert(init.take(i + 1) =~= init.take(i).push(init[i]));
                assert(init.take(i + 1).drop_last() =~= init.take(i));
                assert(occurs_at(ji, init[i], total_len(init.take(i)) + i));
            } else {
                assert(ls.take(i + 1) =~= init);
            }
        }
    }
}

/// The kept lines of the program's output are exactly its non-empty lines
/// that do not start with `whisper_`, `main:` or `system_info`, in order,
/// and the transcription is them joined by spaces, trimmed.
pub proof fn law_transcript_keeps_every_transcript_line(stdout: Seq<char>)
    ensures
        transcript_lines(text_lines(stdout)) == text_lines(stdout).filter(
            |l: Seq<char>|
                !has_prefix(l, "whisper_"@) && !has_prefix(l, "main:"@) && !has_prefix(
                    l,
                    "system_info"@,
                ) && l.len() > 0,
        ),
        transcript_text(stdout) == trimmed(join_transcript(transcript_lines(text_lines(stdout)))),
{
    lemma_transcript_lines_filter(text_lines(stdout));
}

proof fn lemma_transcript_lines_filter(ls: Seq<Seq<char>>)
    ensures
        transcript_lines(ls) == ls.filter(
            |l: Seq<char>|
                !has_prefix(l, "whisper_"@) && !has_prefix(l, "main:"@) && !has_prefix(
                    l,
                    "system_info"@,
                ) && l.len() > 0,
        ),
    decreases ls.len(),
{
    reveal(Seq::filter);
    if ls.len() > 0 {
        lemma_transcript_lines_filter(ls.drop_last());
    }
}

/// Whether an output line is transcription.
fn keep_line(l: &[char]) -> (r: bool)
    ensures
        r == is_transcript_line(l@),
{
    !starts_with(l, &chars_of("whisper_")) && !starts_with(l, &chars_of("main:")) && !starts_with(
        l,
        &chars_of("system_info"),
    ) && l.len() > 0
}

/// The transcription in the program's standard output: lines of progress
/// information (`whisper_…`, `main:…`, `system_info…`) and empty lines are
/// dropped, the rest joined by spaces and trimmed.
pub fn clean_transcript(stdout: &str) -> (r: String)
    ensures
        r@ == transcript_text(stdout@),
{
    let cs = chars_of(stdout);
    let lines = lines_of(&cs);
    let ghost ls = text_lines(stdout@);
    let mut joined: Vec<char> = Vec::new();
    let mut count: usize = 0;
    let mut i: usize = 0;
    assert(ls.take(0) =~= Seq::<Seq<char>>::empty());
    while i < lines.len()
        invariant
            i <= lines@.len(),
            line_views(lines@) == ls,
            joined@ == join_transcript(transcript_lines(ls.take(i as int))),
            count == transcript_lines(ls.take(i as int)).len(),
            count <= i,
        decreases lines@.len() - i,
    {
        let l = &lines[i];
        let ghost before = ls.take(i as int);
        let ghost after = ls.take(i + 1);
        proof {
            assert(after.drop_last() =~= before);
            assert(after.last() == l@);
            assert(ls[i as int] == l@);
            assert(transcript_lines(after) == if is_transcript_line(l@) {
                transcript_lines(before).push(l@)
            } else {
                transcript_lines(before)
            });
        }
        if keep_line(l) {
            if count > 0 {
                joined.push(' ');
            }
            let mut k: usize = 0;
            let ghost base = joined@;
            while k < l.len()
                invariant
                    k <= l@.len(),
                    joined@ == base + l@.take(k as int),
                decreases l@.len() - k,
            {
                joined.push(l[k]);
                k = k + 1;
                assert(joined@ =~= base + l@.take(k as int));
            }
            proof {
                assert(l@.take(l@.len() as int) =~= l@);
                let tb = transcript_lines(before);
                let ta = tb.push(l@);
                assert(ta.drop_last() =~= tb);
                assert(ta.last() == l@);
                if count == 0 {
                    assert(joined@ =~= l@);
                    assert(ta[0] == l@);
                } else {
                    assert(joined@ =~= join_transcript(tb) + seq![' '] + l@);
                }
            }
            count = count + 1;
        }
        i = i + 1;
    }
    assert(ls.take(lines@.len() as int) =~= ls);
    let t = trim_chars(&joined);
    string_of(&t)
}

} // verus!
