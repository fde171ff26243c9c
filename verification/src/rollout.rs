//! The record of a session, and the conversation that it gives back.
//!
//! A session is kept as lines, one for each lasting unit; the bytes of images
//! lie in files beside it.

use crate::chars::{
    cat, chars_of, copied_strings, cut, decimal, decimal_of, find, join, joined_strings, lines,
    lines_of, number_of, number_text, opt_text, parse_number, push_all, push_text, split_once,
    str_eq, string_of, text_from, texts, trim, trimmed,
};
use crate::media::{base64, base64_encode};
use crate::paths::{file_name, join_path, name_of, under};
use crate::protocol::{
    copied_edit_diffs, copied_opt_edit_diff, edit_diffs_say, opt_edit_diff, EditDiff, EditDiffV,
};
use crate::provider::{
    assistant_msg, calls_say, images_say, msgs_say, system_msg, tool_msg, unless_empty, user_msg,
    wire_of, wires_say, CallV, ChatImage, ChatMsg, ImageV, MsgV, ToolCall, WireV,
};
use vstd::prelude::*;

verus! {

/// An image of a message, kept as a file beside the record of the session.
#[derive(Clone, Debug)]
pub struct ImageRef {
    pub path: String,
    pub media_type: String,
    pub width: u32,
    pub height: u32,
}

/// What a `ImageRef` says.
#[verifier::ext_equal]
pub struct ImageRefV {
    pub path: Seq<char>,
    pub media_type: Seq<char>,
    pub width: u32,
    pub height: u32,
}

impl View for ImageRef {
    type V = ImageRefV;

    open spec fn view(&self) -> ImageRefV {
        ImageRefV {
            path: self.path@,
            media_type: self.media_type@,
            width: self.width,
            height: self.height,
        }
    }
}

impl ImageRef {
    /// A value that says the same.
    pub fn copy(&self) -> (r: ImageRef)
        ensures
            r@ == self@,
    {
        ImageRef {
            path: self.path.clone(),
            media_type: self.media_type.clone(),
            width: self.width,
            height: self.height,
        }
    }
}

/// The picture that a reference stands for, for the model: the bytes of its
/// file, and the file's name as its label. A file that is gone has none.
pub open spec fn rehydrated(image: ImageRefV, bytes: Option<Seq<u8>>) -> Option<ImageV> {
    match bytes {
        Some(b) => Some(
            ImageV {
                media_type: image.media_type,
                data_base64: base64(b),
                label: name_of(image.path),
            },
        ),
        None => None,
    }
}

/// Makes the picture that a reference stands for of the bytes of its file.
pub fn rehydrate_image(image_ref: &ImageRef, bytes: Option<&[u8]>) -> (r: Option<ChatImage>)
    ensures
        match r {
            Some(i) => bytes is Some && rehydrated(image_ref@, Some(bytes->0@)) == Some(i@),
            None => bytes is None,
        },
{
    match bytes {
        Some(b) => Some(
            ChatImage {
                media_type: image_ref.media_type.clone(),
                data_base64: base64_encode(b),
                label: file_name(image_ref.path.as_str()),
            },
        ),
        None => None,
    }
}

/// A lasting unit of a session, one line of its record.
#[derive(Clone, Debug)]
pub enum RolloutRecord {
    /// The head of the record.
    Meta { id: String, cwd: String, title: String, created_at: u64 },
    User { text: String, files: Vec<String>, images: Vec<ImageRef> },
    Reasoning { text: String },
    Text { text: String },
    ToolCall { tool: String, summary: String, arguments: String, output: String, is_error: bool, edit: Option<EditDiff> },
    /// The files that a turn changed.
    TurnChanges { files: Vec<EditDiff> },
    /// The tokens and times of a turn.
    TurnStats { input: u64, cache_read: u64, output: u64, duration_ms: u64, api_ms: u64, ttft_ms: u64, api_steps: u64 },
    /// The tokens of one request.
    StepUsage { input: u64, cache_read: u64, output: u64, used: u64 },
    Compact { note: String, omitted: usize },
}

/// What a `RolloutRecord` says.
#[verifier::ext_equal]
pub enum RolloutRecordV {
    Meta { id: Seq<char>, cwd: Seq<char>, title: Seq<char>, created_at: u64 },
    User { text: Seq<char>, files: Seq<Seq<char>>, images: Seq<ImageRefV> },
    Reasoning { text: Seq<char> },
    Text { text: Seq<char> },
    ToolCall { tool: Seq<char>, summary: Seq<char>, arguments: Seq<char>, output: Seq<char>, is_error: bool, edit: Option<EditDiffV> },
    TurnChanges { files: Seq<EditDiffV> },
    TurnStats { input: u64, cache_read: u64, output: u64, duration_ms: u64, api_ms: u64, ttft_ms: u64, api_steps: u64 },
    StepUsage { input: u64, cache_read: u64, output: u64, used: u64 },
    Compact { note: Seq<char>, omitted: usize },
}

impl View for RolloutRecord {
    type V = RolloutRecordV;

    open spec fn view(&self) -> RolloutRecordV {
        match self {
            RolloutRecord::Meta { id, cwd, title, created_at } => RolloutRecordV::Meta {
                id: id@,
                cwd: cwd@,
                title: title@,
                created_at: *created_at,
            },
            RolloutRecord::User { text, files, images } => RolloutRecordV::User {
                text: text@,
                files: texts(files@),
                images: image_refs_say(images@),
            },
            RolloutRecord::Reasoning { text } => RolloutRecordV::Reasoning {
                text: text@,
            },
            RolloutRecord::Text { text } => RolloutRecordV::Text {
                text: text@,
            },
            RolloutRecord::ToolCall { tool, summary, arguments, output, is_error, edit } => RolloutRecordV::ToolCall {
                tool: tool@,
                summary: summary@,
                arguments: arguments@,
                output: output@,
                is_error: *is_error,
                edit: opt_edit_diff(*edit),
            },
            RolloutRecord::TurnChanges { files } => RolloutRecordV::TurnChanges {
                files: edit_diffs_say(files@),
            },
            RolloutRecord::TurnStats { input, cache_read, output, duration_ms, api_ms, ttft_ms, api_steps } => RolloutRecordV::TurnStats {
                input: *input,
                cache_read: *cache_read,
                output: *output,
                duration_ms: *duration_ms,
                api_ms: *api_ms,
                ttft_ms: *ttft_ms,
                api_steps: *api_steps,
            },
            RolloutRecord::StepUsage { input, cache_read, output, used } => RolloutRecordV::StepUsage {
                input: *input,
                cache_read: *cache_read,
                output: *output,
                used: *used,
            },
            RolloutRecord::Compact { note, omitted } => RolloutRecordV::Compact {
                note: note@,
                omitted: *omitted,
            },
        }
    }
}

impl RolloutRecord {
    /// A value that says the same.
    pub fn copy(&self) -> (r: RolloutRecord)
        ensures
            r@ == self@,
    {
        match self {
            RolloutRecord::Meta { id, cwd, title, created_at } => RolloutRecord::Meta {
                id: id.clone(),
                cwd: cwd.clone(),
                title: title.clone(),
                created_at: *created_at,
            },
            RolloutRecord::User { text, files, images } => RolloutRecord::User {
                text: text.clone(),
                files: copied_strings(files.as_slice()),
                images: copied_image_refs(images.as_slice()),
            },
            RolloutRecord::Reasoning { text } => RolloutRecord::Reasoning {
                text: text.clone(),
            },
            RolloutRecord::Text { text } => RolloutRecord::Text {
                text: text.clone(),
            },
            RolloutRecord::ToolCall { tool, summary, arguments, output, is_error, edit } => RolloutRecord::ToolCall {
                tool: tool.clone(),
                summary: summary.clone(),
                arguments: arguments.clone(),
                output: output.clone(),
                is_error: *is_error,
                edit: copied_opt_edit_diff(edit),
            },
            RolloutRecord::TurnChanges { files } => RolloutRecord::TurnChanges {
                files: copied_edit_diffs(files.as_slice()),
            },
            RolloutRecord::TurnStats { input, cache_read, output, duration_ms, api_ms, ttft_ms, api_steps } => RolloutRecord::TurnStats {
                input: *input,
                cache_read: *cache_read,
                output: *output,
                duration_ms: *duration_ms,
                api_ms: *api_ms,
                ttft_ms: *ttft_ms,
                api_steps: *api_steps,
            },
            RolloutRecord::StepUsage { input, cache_read, output, used } => RolloutRecord::StepUsage {
                input: *input,
                cache_read: *cache_read,
                output: *output,
                used: *used,
            },
            RolloutRecord::Compact { note, omitted } => RolloutRecord::Compact {
                note: note.clone(),
                omitted: *omitted,
            },
        }
    }
}

/// What each of a list says.
pub open spec fn image_refs_say(v: Seq<ImageRef>) -> Seq<ImageRefV> {
    v.map_values(|x: ImageRef| x@)
}

/// A list that says the same.
pub fn copied_image_refs(v: &[ImageRef]) -> (r: Vec<ImageRef>)
    ensures
        image_refs_say(r@) == image_refs_say(v@),
{
    let mut out: Vec<ImageRef> = Vec::new();
    for i in 0..v.len()
        invariant
            out.len() == i,
            forall|k: int| 0 <= k < i ==> (#[trigger] out@[k])@ == v@[k]@,
    {
        out.push(v[i].copy());
    }
    proof {
        assert(image_refs_say(out@) =~= image_refs_say(v@));
    }
    out
}

/// What each of a list says.
pub open spec fn rollout_records_say(v: Seq<RolloutRecord>) -> Seq<RolloutRecordV> {
    v.map_values(|x: RolloutRecord| x@)
}

// ---------------------------------------------------------------------------
// Lines
// ---------------------------------------------------------------------------

/// The lines among `v` that are not blank.
pub open spec fn not_blank(v: Seq<Seq<char>>) -> Seq<Seq<char>>
    decreases v.len(),
{
    if v.len() == 0 {
        Seq::empty()
    } else if trim(v.last()).len() > 0 {
        not_blank(v.drop_last()).push(v.last())
    } else {
        not_blank(v.drop_last())
    }
}

/// The lines of a record, one for each unit.
pub open spec fn units(text: Seq<char>) -> Seq<Seq<char>> {
    not_blank(lines(text))
}

/// Takes the lines of a record; blank ones are passed over.
pub fn record_lines(text: &str) -> (r: Vec<String>)
    ensures
        texts(r@) == units(text@),
{
    let v = chars_of(text);
    let all = lines_of(v.as_slice());
    let ghost w = crate::chars::rows(all@);
    let mut out: Vec<String> = Vec::new();
    proof {
        assert(texts(out@) =~= Seq::<Seq<char>>::empty());
    }
    for i in 0..all.len()
        invariant
            w == crate::chars::rows(all@),
            texts(out@) == not_blank(w.take(i as int)),
    {
        let ghost before = texts(out@);
        proof {
            assert(w.take(i as int + 1).drop_last() =~= w.take(i as int));
            assert(w.take(i as int + 1).last() == all@[i as int]@);
        }
        if trimmed(all[i].as_slice()).len() > 0 {
            out.push(string_of(all[i].as_slice()));
            proof {
                assert(texts(out@) =~= before.push(all@[i as int]@));
            }
        }
    }
    proof {
        assert(w.take(all@.len() as int) =~= w);
    }
    out
}

proof fn lemma_not_blank_joins(a: Seq<Seq<char>>, b: Seq<Seq<char>>)
    ensures
        not_blank(a + b) == not_blank(a) + not_blank(b),
    decreases b.len(),
{
    if b.len() == 0 {
        assert(a + b =~= a);
        assert(not_blank(a) + not_blank(b) =~= not_blank(a));
    } else {
        lemma_not_blank_joins(a, b.drop_last());
        assert((a + b).drop_last() =~= a + b.drop_last());
        assert((a + b).last() == b.last());
        assert(not_blank(a + b) =~= not_blank(a) + not_blank(b));
    }
}

proof fn lemma_lines_joins(a: Seq<char>, b: Seq<char>)
    requires
        a.len() == 0 || a.last() == '\n',
    ensures
        lines(a + b) == lines(a) + lines(b),
    decreases a.len(),
{
    if a.len() == 0 {
        assert(a + b =~= b);
        assert(lines(a) + lines(b) =~= lines(b));
    } else {
        crate::chars::lemma_find_from(a, '\n', 0);
        crate::chars::lemma_find_from(a + b, '\n', 0);
        assert(a[a.len() - 1] == '\n');
        let k = find(a, '\n')->0;
        let s = a + b;
        let ks = find(s, '\n')->0;
        assert(s[k] == '\n');
        assert(ks == k) by {
            if ks < k {
                assert(s[ks] == a[ks]);
            }
        }
        assert(s.take(k) =~= a.take(k));
        let rest = a.skip(k + 1);
        assert(s.skip(k + 1) =~= rest + b);
        if rest.len() > 0 {
            assert(rest.last() == a.last());
        }
        lemma_lines_joins(rest, b);
        assert(lines(s) =~= lines(a) + lines(b));
    }
}

/// A unit that is appended as a line is read back behind those that were there
/// before. The line holds no line ending and is not blank.
pub proof fn law_append_reads_back(text: Seq<char>, line: Seq<char>)
    requires
        text.len() == 0 || text.last() == '\n',
        !line.contains('\n'),
        trim(line).len() > 0,
        line.len() > 0 ==> line.last() != '\r',
    ensures
        units(text + line.push('\n')) == units(text).push(line),
        (text + line.push('\n')).last() == '\n',
{
    let added = line.push('\n');
    lemma_lines_joins(text, added);
    crate::chars::lemma_find_from(added, '\n', 0);
    assert(added[line.len() as int] == '\n');
    let k = find(added, '\n')->0;
    assert(k == line.len()) by {
        if k < line.len() {
            assert(added[k] == line[k]);
            assert(line.contains(line[k]));
        }
    }
    assert(added.take(k) =~= line);
    assert(added.skip(k + 1) =~= Seq::<char>::empty());
    assert(lines(Seq::<char>::empty()) =~= Seq::<Seq<char>>::empty());
    assert(lines(added) =~= seq![line]);
    lemma_not_blank_joins(lines(text), seq![line]);
    assert(seq![line].drop_last() =~= Seq::<Seq<char>>::empty());
    assert(seq![line].last() == line);
    assert(not_blank(Seq::<Seq<char>>::empty()) =~= Seq::<Seq<char>>::empty());
    assert(not_blank(seq![line]) =~= seq![line]);
    assert(units(text + added) =~= units(text).push(line));
}

// ---------------------------------------------------------------------------
// Images beside the record
// ---------------------------------------------------------------------------

/// The directory of a session's images.
pub fn media_dir(sessions_dir: &str, session_id: &str) -> (r: String)
    ensures
        r@ == under(sessions_dir@, session_id@ + ".media"@),
{
    let name = cat(session_id, ".media");
    join_path(sessions_dir, name.as_str())
}

/// The number that the name of a file begins with, up to its first dot.
pub open spec fn name_number(name: Seq<char>) -> Option<nat> {
    parse_number(
        match split_once(name, '.') {
            Some((stem, _)) => stem,
            None => name,
        },
        u64::MAX as nat,
    )
}

/// The greatest number among the names, or zero.
pub open spec fn top_number(names: Seq<Seq<char>>) -> nat
    decreases names.len(),
{
    if names.len() == 0 {
        0
    } else {
        let before = top_number(names.drop_last());
        match name_number(names.last()) {
            Some(n) => if n > before {
                n
            } else {
                before
            },
            None => before,
        }
    }
}

/// The number for the next image among files of these names: one more than
/// the greatest that is in use, so that no image takes the place of another.
/// There is none where the numbers are used up.
pub fn next_media_index(names: &[String]) -> (r: Option<u64>)
    ensures
        match r {
            Some(n) => n == top_number(texts(names@)) + 1,
            None => top_number(texts(names@)) >= u64::MAX,
        },
{
    let ghost all = texts(names@);
    let mut top: u64 = 0;
    for i in 0..names.len()
        invariant
            all == texts(names@),
            top == top_number(all.take(i as int)),
    {
        proof {
            assert(all.take(i as int + 1).drop_last() =~= all.take(i as int));
            assert(all.take(i as int + 1).last() == names@[i as int]@);
        }
        let name = chars_of(names[i].as_str());
        let number: Option<u64> = match cut(name.as_slice(), '.') {
            Some((stem, _)) => number_of(stem, u64::MAX),
            None => number_of(name.as_slice(), u64::MAX),
        };
        match number {
            Some(n) => {
                if n > top {
                    top = n;
                }
            },
            None => {},
        }
    }
    proof {
        assert(all.take(names@.len() as int) =~= all);
    }
    if top < u64::MAX {
        Some(top + 1)
    } else {
        None
    }
}

/// No file of the directory has the number that the next image gets.
pub proof fn law_next_is_free(names: Seq<Seq<char>>, i: int)
    requires
        0 <= i < names.len(),
    ensures
        name_number(names[i]) is Some ==> name_number(names[i])->0 < top_number(names) + 1,
    decreases names.len(),
{
    if i < names.len() - 1 {
        law_next_is_free(names.drop_last(), i);
        assert(names.drop_last()[i] == names[i]);
    }
}

/// The text of a user's message as it is shown: with a link to each image.
pub open spec fn shown_user_text(text: Seq<char>, images: Seq<ImageRefV>) -> Seq<char>
    decreases images.len(),
{
    if images.len() == 0 {
        text
    } else {
        shown_user_text(text, images.drop_last()) + "\n![图片 "@ + decimal(images.len()) + "]("@
            + images.last().path + ")"@
    }
}

/// Writes the text of a user's message as it is shown.
pub fn user_display_text(text: &str, images: &[ImageRef]) -> (r: String)
    ensures
        r@ == shown_user_text(text@, image_refs_say(images@)),
{
    let ghost all = image_refs_say(images@);
    let mut out = chars_of(text);
    for i in 0..images.len()
        invariant
            all == image_refs_say(images@),
            out@ == shown_user_text(text@, all.take(i as int)),
    {
        proof {
            assert(all.take(i as int + 1).drop_last() =~= all.take(i as int));
            assert(all.take(i as int + 1).last() == images@[i as int]@);
        }
        push_text(&mut out, "\n![图片 ");
        push_all(&mut out, decimal_of(i as u64 + 1).as_slice());
        push_text(&mut out, "](");
        push_text(&mut out, images[i].path.as_str());
        push_text(&mut out, ")");
    }
    proof {
        assert(all.take(images@.len() as int) =~= all);
    }
    string_of(out.as_slice())
}

// ---------------------------------------------------------------------------
// The conversation
// ---------------------------------------------------------------------------

/// What a list of images that may be lost says.
pub open spec fn found_images(v: Seq<Option<ChatImage>>) -> Seq<Option<ImageV>> {
    v.map_values(
        |i: Option<ChatImage>|
            match i {
                Some(x) => Some(x@),
                None => None,
            },
    )
}

/// What lists of images that may be lost say.
pub open spec fn all_found_images(v: Seq<Vec<Option<ChatImage>>>) -> Seq<Seq<Option<ImageV>>> {
    v.map_values(|l: Vec<Option<ChatImage>>| found_images(l@))
}

/// The images that are there.
pub open spec fn present(v: Seq<Option<ImageV>>) -> Seq<ImageV>
    decreases v.len(),
{
    if v.len() == 0 {
        Seq::empty()
    } else {
        match v.last() {
            Some(i) => present(v.drop_last()).push(i),
            None => present(v.drop_last()),
        }
    }
}

/// A user's text with its files, and with how many images are lost.
pub open spec fn user_text(text: Seq<char>, files: Seq<Seq<char>>, lost: int) -> Seq<char> {
    let with_files = if files.len() > 0 {
        text + "\n\n引用文件: "@ + join(files, ", "@)
    } else {
        text
    };
    if lost > 0 {
        with_files + "\n\n["@ + decimal(lost as nat) + " 张图片已失效]"@
    } else {
        with_files
    }
}

/// A conversation that is being built, and the reasoning that waits for the
/// message it belongs to.
#[verifier::ext_equal]
pub struct Rebuilt {
    pub history: Seq<MsgV>,
    pub waiting: Option<Seq<char>>,
}

/// The place of the last message that is no result of a tool; before the first
/// where there is none.
pub open spec fn last_speaker(h: Seq<MsgV>) -> int
    decreases h.len(),
{
    if h.len() == 0 {
        -1
    } else if h.last().role != "tool"@ {
        h.len() - 1
    } else {
        last_speaker(h.drop_last())
    }
}

/// The calls that a message makes.
pub open spec fn calls_in(m: MsgV) -> Seq<WireV> {
    match m.tool_calls {
        Some(v) => v,
        None => Seq::empty(),
    }
}

/// The conversation after a call of a tool. The call hangs on the nearest
/// message of the assistant, where nothing but results stands behind that one
/// and no reasoning waits for a message of its own; its result follows.
pub open spec fn with_call(
    st: Rebuilt,
    tool: Seq<char>,
    arguments: Seq<char>,
    output: Seq<char>,
) -> Rebuilt {
    let id = "replay-"@ + decimal(st.history.len());
    let call = CallV { id, name: tool, arguments };
    let k = last_speaker(st.history);
    if k >= 0 && st.history[k].role == "assistant"@ && st.waiting is None {
        let m = st.history[k];
        let more = MsgV { tool_calls: Some(calls_in(m).push(wire_of(call))), ..m };
        Rebuilt {
            history: st.history.update(k, more).push(tool_msg(id, output, Seq::empty())),
            ..st
        }
    } else {
        Rebuilt {
            history: st.history.push(assistant_msg(Seq::empty(), seq![call], st.waiting)).push(
                tool_msg(id, output, Seq::empty()),
            ),
            waiting: None,
        }
    }
}

/// The conversation after one more unit.
pub open spec fn rebuild_step(
    st: Rebuilt,
    record: RolloutRecordV,
    images: Seq<Option<ImageV>>,
) -> Rebuilt {
    match record {
        RolloutRecordV::User { text, files, images: _ } => {
            let there = present(images);
            Rebuilt {
                history: st.history.push(
                    (MsgV {
                        images: there,
                        ..user_msg(user_text(text, files, images.len() - there.len()))
                    }),
                ),
                waiting: None,
            }
        },
        RolloutRecordV::Reasoning { text } => Rebuilt { waiting: Some(text), ..st },
        RolloutRecordV::Text { text } => Rebuilt {
            history: st.history.push(assistant_msg(text, Seq::empty(), st.waiting)),
            waiting: None,
        },
        RolloutRecordV::ToolCall { tool, summary: _, arguments, output, is_error: _, edit: _ } =>
            with_call(st, tool, arguments, output),
        RolloutRecordV::Compact { note, omitted: _ } => Rebuilt {
            history: st.history.push(system_msg(note)),
            ..st
        },
        RolloutRecordV::Meta { .. } => st,
        RolloutRecordV::TurnChanges { .. } => st,
        RolloutRecordV::TurnStats { .. } => st,
        RolloutRecordV::StepUsage { .. } => st,
    }
}

/// The conversation that a record gives back. `images[i]` are those of the
/// record's unit `i`, where they could be read.
pub open spec fn rebuilt(
    records: Seq<RolloutRecordV>,
    images: Seq<Seq<Option<ImageV>>>,
    system: Seq<char>,
) -> Rebuilt
    decreases records.len(),
{
    if records.len() == 0 {
        Rebuilt { history: seq![system_msg(system)], waiting: None }
    } else {
        let i = records.len() - 1;
        rebuild_step(
            rebuilt(records.drop_last(), images, system),
            records.last(),
            if i < images.len() {
                images[i]
            } else {
                Seq::empty()
            },
        )
    }
}

fn keep_present(v: &[Option<ChatImage>]) -> (r: Vec<ChatImage>)
    ensures
        images_say(r@) == present(found_images(v@)),
        r@.len() <= v@.len(),
{
    let ghost all = found_images(v@);
    let mut out: Vec<ChatImage> = Vec::new();
    proof {
        assert(images_say(out@) =~= Seq::<ImageV>::empty());
    }
    for i in 0..v.len()
        invariant
            all == found_images(v@),
            images_say(out@) == present(all.take(i as int)),
            out@.len() <= i,
    {
        let ghost before = images_say(out@);
        proof {
            assert(all.take(i as int + 1).drop_last() =~= all.take(i as int));
        }
        match &v[i] {
            Some(x) => {
                out.push(x.copy());
                proof {
                    assert(images_say(out@) =~= before.push(x@));
                }
            },
            None => {},
        }
    }
    proof {
        assert(all.take(v@.len() as int) =~= all);
    }
    out
}

fn write_user_text(text: &str, files: &[String], lost: usize) -> (r: String)
    ensures
        r@ == user_text(text@, texts(files@), lost as int),
{
    let mut out = chars_of(text);
    proof {
        assert(texts(files@).len() == files@.len());
    }
    if files.len() > 0 {
        push_text(&mut out, "\n\n引用文件: ");
        push_all(&mut out, joined_strings(files, ", ").as_slice());
    }
    if lost > 0 {
        push_text(&mut out, "\n\n[");
        push_all(&mut out, decimal_of(lost as u64).as_slice());
        push_text(&mut out, " 张图片已失效]");
    }
    string_of(out.as_slice())
}

fn add_message(h: &mut Vec<ChatMsg>, m: ChatMsg)
    ensures
        msgs_say(final(h)@) == msgs_say(old(h)@).push(m@),
{
    let ghost before = msgs_say(h@);
    let ghost v = m@;
    h.push(m);
    proof {
        assert(msgs_say(h@) =~= before.push(v));
    }
}

fn find_speaker(h: &[ChatMsg]) -> (r: Option<usize>)
    ensures
        match r {
            Some(k) => last_speaker(msgs_say(h@)) == k && k < h@.len(),
            None => last_speaker(msgs_say(h@)) < 0,
        },
{
    let ghost all = msgs_say(h@);
    let mut k: usize = h.len();
    proof {
        assert(all.take(k as int) =~= all);
    }
    while k > 0
        invariant
            all == msgs_say(h@),
            k <= h@.len(),
            last_speaker(all) == last_speaker(all.take(k as int)),
        decreases k,
    {
        proof {
            assert(all.take(k as int).last() == h@[k - 1]@);
            assert(all.take(k as int).drop_last() =~= all.take(k - 1));
        }
        if !str_eq(h[k - 1].role.as_str(), "tool") {
            return Some(k - 1);
        }
        k = k - 1;
    }
    None
}

fn add_call(h: &mut Vec<ChatMsg>, waiting: &mut Option<String>, tool: &str, arguments: &str, output: &str)
    ensures
        (Rebuilt {
            history: msgs_say(final(h)@),
            waiting: opt_text(*final(waiting)),
        }) == with_call(
            Rebuilt { history: msgs_say(old(h)@), waiting: opt_text(*old(waiting)) },
            tool@,
            arguments@,
            output@,
        ),
{
    let ghost before = msgs_say(h@);
    let id = cat("replay-", number_text(h.len() as u64).as_str());
    let call = ToolCall { id: id.clone(), name: text_from(tool), arguments: text_from(arguments) };
    let ghost cv = call@;
    proof {
        assert(before.len() == h@.len());
    }
    let place: Option<usize> = if waiting.is_none() {
        find_speaker(h.as_slice())
    } else {
        None
    };
    let mut merged = false;
    match place {
        Some(k) => {
            proof {
                assert(before[k as int] == h@[k as int]@);
            }
            if str_eq(h[k].role.as_str(), "assistant") {
                let mut m = h[k].copy();
                let mut list = match m.tool_calls {
                    Some(l) => l,
                    None => Vec::new(),
                };
                let ghost lv = wires_say(list@);
                proof {
                    assert(lv =~= calls_in(before[k as int]));
                }
                list.push(call.to_wire());
                proof {
                    assert(wires_say(list@) =~= lv.push(wire_of(cv)));
                }
                m.tool_calls = Some(list);
                let ghost more = m@;
                h.set(k, m);
                proof {
                    assert(msgs_say(h@) =~= before.update(k as int, more));
                }
                merged = true;
            }
        },
        None => {},
    }
    if !merged {
        let mut calls: Vec<ToolCall> = Vec::new();
        calls.push(call);
        proof {
            assert(calls_say(calls@) =~= seq![cv]);
        }
        let w = waiting.take();
        add_message(h, ChatMsg::assistant(String::new(), calls, w));
    }
    add_message(h, ChatMsg::tool_result(id.as_str(), text_from(output)));
}

/// Builds the conversation that a record gives back, so that it can go on.
/// `images[i]` are those of the record's unit `i`, `None` where a file is
/// lost.
pub fn rebuild_history(
    records: &[RolloutRecord],
    images: &[Vec<Option<ChatImage>>],
    system: String,
) -> (r: Vec<ChatMsg>)
    ensures
        msgs_say(r@) == rebuilt(
            rollout_records_say(records@),
            all_found_images(images@),
            system@,
        ).history,
{
    let ghost all = rollout_records_say(records@);
    let ghost imgs = all_found_images(images@);
    let ghost sys = system@;
    let mut history: Vec<ChatMsg> = Vec::new();
    history.push(ChatMsg::system(system));
    proof {
        assert(msgs_say(history@) =~= seq![system_msg(sys)]);
    }
    let mut waiting: Option<String> = None;
    for i in 0..records.len()
        invariant
            all == rollout_records_say(records@),
            imgs == all_found_images(images@),
            (Rebuilt {
                history: msgs_say(history@),
                waiting: opt_text(waiting),
            }) == rebuilt(all.take(i as int), imgs, sys),
    {
        proof {
            assert(all.take(i as int + 1).drop_last() =~= all.take(i as int));
            assert(all.take(i as int + 1).last() == records@[i as int]@);
            assert(imgs.len() == images@.len());
        }
        match &records[i] {
            RolloutRecord::User { text, files, images: _ } => {
                waiting = None;
                let none: Vec<Option<ChatImage>> = Vec::new();
                let list: &[Option<ChatImage>] = if i < images.len() {
                    images[i].as_slice()
                } else {
                    none.as_slice()
                };
                proof {
                    if i < images@.len() {
                        assert(imgs[i as int] == found_images(images@[i as int]@));
                    } else {
                        assert(found_images(list@) =~= Seq::<Option<ImageV>>::empty());
                    }
                    assert(found_images(list@).len() == list@.len());
                }
                let there = keep_present(list);
                proof {
                    assert(images_say(there@).len() == there@.len());
                }
                let lost: usize = list.len() - there.len();
                let mut m = ChatMsg::user(write_user_text(text.as_str(), files.as_slice(), lost));
                m.images = there;
                add_message(&mut history, m);
            },
            RolloutRecord::Reasoning { text } => {
                waiting = Some(text.clone());
            },
            RolloutRecord::Text { text } => {
                let w = waiting.take();
                let none: Vec<ToolCall> = Vec::new();
                proof {
                    assert(calls_say(none@) =~= Seq::<CallV>::empty());
                }
                add_message(&mut history, ChatMsg::assistant(text.clone(), none, w));
            },
            RolloutRecord::ToolCall { tool, summary: _, arguments, output, is_error: _, edit: _ } => {
                add_call(
                    &mut history,
                    &mut waiting,
                    tool.as_str(),
                    arguments.as_str(),
                    output.as_str(),
                );
            },
            RolloutRecord::Compact { note, omitted: _ } => {
                add_message(&mut history, ChatMsg::system(note.clone()));
            },
            RolloutRecord::Meta { .. } => {},
            RolloutRecord::TurnChanges { .. } => {},
            RolloutRecord::TurnStats { .. } => {},
            RolloutRecord::StepUsage { .. } => {},
        }
    }
    proof {
        assert(all.take(records@.len() as int) =~= all);
    }
    history
}

/// Whether a message is followed by the results of its calls: by one for each
/// call, in the order of the calls, and by no other result.
pub open spec fn is_answered(h: Seq<MsgV>, k: int) -> bool {
    let calls = calls_in(h[k]);
    &&& calls.len() > 0 ==> h[k].role == "assistant"@
    &&& k + calls.len() < h.len()
    &&& forall|j: int|
        0 <= j < calls.len() ==> (#[trigger] h[k + 1 + j]).role == "tool"@ && h[k + 1
            + j].tool_call_id == Some(calls[j].id)
    &&& k + 1 + calls.len() < h.len() ==> h[k + 1 + calls.len()].role != "tool"@
}

/// Whether each run of results stands behind one message of the assistant and
/// answers its calls in order: the conversation begins with no result, and
/// every message that is none is followed by the results of its calls.
pub open spec fn results_follow_calls(h: Seq<MsgV>) -> bool {
    &&& h.len() > 0 ==> h[0].role != "tool"@
    &&& forall|k: int|
        0 <= k < h.len() && (#[trigger] h[k]).role != "tool"@ ==> is_answered(h, k)
}

/// A conversation that is built from a record can go on: it begins with the
/// system's message, no call stands without its result, and no result without
/// its call.
pub proof fn law_results_follow_calls(
    records: Seq<RolloutRecordV>,
    images: Seq<Seq<Option<ImageV>>>,
    system: Seq<char>,
)
    ensures
        results_follow_calls(rebuilt(records, images, system).history),
        rebuilt(records, images, system).history.len() > 0,
        rebuilt(records, images, system).history[0] == system_msg(system),
    decreases records.len(),
{
    lemma_roles();
    if records.len() == 0 {
        assert(rebuilt(records, images, system).history =~= seq![system_msg(system)]);
    } else {
        law_results_follow_calls(records.drop_last(), images, system);
        let st = rebuilt(records.drop_last(), images, system);
        let h = st.history;
        let i = records.len() - 1;
        let mine = if i < images.len() {
            images[i]
        } else {
            Seq::empty()
        };
        match records.last() {
            RolloutRecordV::User { text, files, images: _ } => {
                let there = present(mine);
                lemma_push_plain(
                    h,
                    MsgV {
                        images: there,
                        ..user_msg(user_text(text, files, mine.len() - there.len()))
                    },
                );
            },
            RolloutRecordV::Text { text } => {
                lemma_push_plain(h, assistant_msg(text, Seq::empty(), st.waiting));
            },
            RolloutRecordV::Compact { note, omitted: _ } => {
                lemma_push_plain(h, system_msg(note));
            },
            RolloutRecordV::ToolCall { tool, summary: _, arguments, output, is_error: _, edit: _ } => {
                lemma_with_call(st, tool, arguments, output);
            },
            _ => {},
        }
    }
}

/// A call behind a text makes no message of its own: it hangs on the message
/// that says the text, and only its result is added.
pub proof fn law_calls_hang_on_the_nearest(
    records: Seq<RolloutRecordV>,
    images: Seq<Seq<Option<ImageV>>>,
    system: Seq<char>,
    text: Seq<char>,
    call: RolloutRecordV,
)
    requires
        call is ToolCall,
    ensures
        ({
            let h = rebuilt(records, images, system).history;
            let now = rebuilt(
                records.push(RolloutRecordV::Text { text }).push(call),
                images,
                system,
            ).history;
            &&& now.len() == h.len() + 2
            &&& now[h.len() as int].role == "assistant"@
            &&& now[h.len() as int].content == unless_empty(Some(text))
            &&& calls_in(now[h.len() as int]).len() == 1
            &&& calls_in(now[h.len() as int])[0].name == call->ToolCall_tool
            &&& calls_in(now[h.len() as int])[0].arguments == call->ToolCall_arguments
            &&& now.last() == tool_msg(
                calls_in(now[h.len() as int])[0].id,
                call->ToolCall_output,
                Seq::empty(),
            )
        }),
{
    lemma_roles();
    let said = records.push(RolloutRecordV::Text { text });
    let all = said.push(call);
    assert(said.drop_last() =~= records);
    assert(all.drop_last() =~= said);
    let st = rebuilt(said, images, system);
    assert(st.history.last() == assistant_msg(
        text,
        Seq::empty(),
        rebuilt(records, images, system).waiting,
    ));
    assert(last_speaker(st.history) == st.history.len() - 1);
}

proof fn lemma_roles()
    ensures
        "tool"@ != "system"@,
        "tool"@ != "user"@,
        "tool"@ != "assistant"@,
        "assistant"@ != "system"@,
        "assistant"@ != "user"@,
{
    reveal_strlit("tool");
    reveal_strlit("system");
    reveal_strlit("user");
    reveal_strlit("assistant");
    assert("tool"@.len() == 4);
    assert("system"@.len() == 6);
    assert("user"@[0] == 'u');
    assert("tool"@[0] == 't');
    assert("assistant"@.len() == 9);
}

proof fn lemma_push_plain(h: Seq<MsgV>, m: MsgV)
    requires
        results_follow_calls(h),
        m.role != "tool"@,
        calls_in(m).len() == 0,
    ensures
        results_follow_calls(h.push(m)),
{
    let now = h.push(m);
    assert forall|k: int| 0 <= k < now.len() && (#[trigger] now[k]).role != "tool"@ implies is_answered(
        now,
        k,
    ) by {
        if k < h.len() {
            assert(now[k] == h[k]);
            assert(is_answered(h, k));
            let calls = calls_in(h[k]);
            assert forall|j: int| 0 <= j < calls.len() implies (#[trigger] now[k + 1 + j]).role
                == "tool"@ && now[k + 1 + j].tool_call_id == Some(calls[j].id) by {
                assert(now[k + 1 + j] == h[k + 1 + j]);
            }
        }
    }
}

proof fn lemma_speaker(h: Seq<MsgV>)
    requires
        h.len() > 0,
        h[0].role != "tool"@,
    ensures
        0 <= last_speaker(h) < h.len(),
        h[last_speaker(h)].role != "tool"@,
        forall|j: int| last_speaker(h) < j < h.len() ==> (#[trigger] h[j]).role == "tool"@,
    decreases h.len(),
{
    if h.last().role == "tool"@ {
        let d = h.drop_last();
        lemma_speaker(d);
        assert(h[last_speaker(d)] == d[last_speaker(d)]);
        assert forall|j: int| last_speaker(h) < j < h.len() implies (#[trigger] h[j]).role
            == "tool"@ by {
            if j < d.len() {
                assert(d[j] == h[j]);
            }
        }
    }
}

/// The calls of the last message that is no result are all answered, and
/// nothing stands behind the answers.
proof fn lemma_last_run(h: Seq<MsgV>)
    requires
        results_follow_calls(h),
        h.len() > 0,
    ensures
        ({
            let k = last_speaker(h);
            0 <= k && k + 1 + calls_in(h[k]).len() == h.len()
        }),
{
    lemma_speaker(h);
    let k = last_speaker(h);
    assert(is_answered(h, k));
}

proof fn lemma_with_call(
    st: Rebuilt,
    tool: Seq<char>,
    arguments: Seq<char>,
    output: Seq<char>,
)
    requires
        results_follow_calls(st.history),
        st.history.len() > 0,
        st.history[0].role == "system"@,
    ensures
        results_follow_calls(with_call(st, tool, arguments, output).history),
        with_call(st, tool, arguments, output).history.len() > 0,
        with_call(st, tool, arguments, output).history[0] == st.history[0],
{
    lemma_roles();
    let h = st.history;
    lemma_speaker(h);
    lemma_last_run(h);
    let id = "replay-"@ + decimal(h.len());
    let call = CallV { id, name: tool, arguments };
    let s = last_speaker(h);
    let result = tool_msg(id, output, Seq::empty());
    let now = with_call(st, tool, arguments, output).history;
    if h[s].role == "assistant"@ && st.waiting is None {
        let n = calls_in(h[s]).len() as int;
        let more = calls_in(h[s]).push(wire_of(call));
        assert(calls_in(now[s]) == more);
        assert forall|k: int| 0 <= k < now.len() && (#[trigger] now[k]).role
            != "tool"@ implies is_answered(now, k) by {
            if k == s {
                assert(is_answered(h, s));
                assert forall|j: int| 0 <= j < more.len() implies (#[trigger] now[k + 1 + j]).role
                    == "tool"@ && now[k + 1 + j].tool_call_id == Some(more[j].id) by {
                    if j < n {
                        assert(now[k + 1 + j] == h[k + 1 + j]);
                    } else {
                        assert(now[k + 1 + j] == result);
                    }
                }
            } else {
                assert(k < h.len());
                assert(now[k] == h[k]);
                assert(k < s);
                lemma_earlier_run(h, now, k, s);
            }
        }
    } else {
        let asking = assistant_msg(Seq::empty(), seq![call], st.waiting);
        let wires = seq![call].map_values(|c: CallV| wire_of(c));
        assert(wires.len() == 1 && wires[0] == wire_of(call));
        assert(calls_in(asking) == wires);
        let a = h.len() as int;
        assert forall|k: int| 0 <= k < now.len() && (#[trigger] now[k]).role
            != "tool"@ implies is_answered(now, k) by {
            if k == a {
                assert(now[k] == asking);
                assert forall|j: int| 0 <= j < wires.len() implies (#[trigger] now[k + 1 + j]).role
                    == "tool"@ && now[k + 1 + j].tool_call_id == Some(wires[j].id) by {
                    assert(now[k + 1 + j] == result);
                }
            } else {
                assert(k < a);
                assert(now[k] == h[k]);
                assert(is_answered(h, k));
                assert(now[a].role != "tool"@);
                lemma_earlier_run(h, now, k, a);
            }
        }
    }
}

/// A message that is answered stays answered where only what stands at or
/// behind a later message changes, and that one is no result before or after.
proof fn lemma_earlier_run(h: Seq<MsgV>, now: Seq<MsgV>, k: int, s: int)
    requires
        results_follow_calls(h),
        0 <= k < s <= h.len(),
        s < now.len(),
        h[k].role != "tool"@,
        s < h.len() ==> h[s].role != "tool"@,
        now[s].role != "tool"@,
        forall|j: int| 0 <= j < s ==> (#[trigger] now[j]) == h[j],
    ensures
        is_answered(now, k),
{
    assert(is_answered(h, k));
    let calls = calls_in(h[k]);
    if k + calls.len() >= s {
        assert(h[k + 1 + (s - k - 1)].role == "tool"@);
    }
    assert(now[k] == h[k]);
    assert forall|j: int| 0 <= j < calls.len() implies (#[trigger] now[k + 1 + j]).role == "tool"@
        && now[k + 1 + j].tool_call_id == Some(calls[j].id) by {
        assert(now[k + 1 + j] == h[k + 1 + j]);
    }
}

/// A unit of the user gives back one message of the user behind those from
/// before. Its content begins with the recorded text, and is that text alone
/// where no file was named and no image is lost; files are named behind it, and
/// so is how many images are lost. The images that could be read go along, in
/// their order.
pub proof fn law_user_unit_gives_back_its_text(
    records: Seq<RolloutRecordV>,
    images: Seq<Seq<Option<ImageV>>>,
    system: Seq<char>,
    text: Seq<char>,
    files: Seq<Seq<char>>,
    refs: Seq<ImageRefV>,
)
    ensures
        ({
            let h = rebuilt(records, images, system).history;
            let st = rebuilt(
                records.push(RolloutRecordV::User { text, files, images: refs }),
                images,
                system,
            );
            let mine = if records.len() < images.len() {
                images[records.len() as int]
            } else {
                Seq::empty()
            };
            let there = mine.filter(|i: Option<ImageV>| i is Some);
            let lost = (mine.len() - there.len()) as nat;
            let m = st.history.last();
            let named = if files.len() > 0 {
                text + "\n\n引用文件: "@ + join(files, ", "@)
            } else {
                text
            };
            &&& st.history.len() == h.len() + 1
            &&& st.history.drop_last() == h
            &&& st.waiting is None
            &&& m.role == "user"@
            &&& m.tool_calls is None && m.tool_call_id is None && m.reasoning is None
            &&& m.content matches Some(c) && c.len() >= text.len() && c.take(text.len() as int)
                == text
            &&& files.len() == 0 && lost == 0 ==> m.content == Some(text)
            &&& lost == 0 ==> m.content == Some(named)
            &&& lost > 0 ==> m.content == Some(
                named + "\n\n["@ + decimal(lost) + " 张图片已失效]"@,
            )
            &&& m.images.len() == there.len()
            &&& forall|i: int|
                0 <= i < there.len() ==> there[i] == Some(#[trigger] m.images[i])
        }),
{
    let unit = RolloutRecordV::User { text, files, images: refs };
    let all = records.push(unit);
    assert(all.drop_last() =~= records);
    let mine = if records.len() < images.len() {
        images[records.len() as int]
    } else {
        Seq::empty()
    };
    lemma_present_filter(mine);
    let h = rebuilt(records, images, system).history;
    let now = rebuilt(all, images, system).history;
    assert(now.drop_last() =~= h);
    let c = now.last().content->0;
    assert(c.take(text.len() as int) =~= text);
}

proof fn lemma_present_filter(v: Seq<Option<ImageV>>)
    ensures
        ({
            let there = v.filter(|i: Option<ImageV>| i is Some);
            &&& present(v).len() == there.len()
            &&& there.len() <= v.len()
            &&& forall|i: int| 0 <= i < there.len() ==> there[i] == Some(#[trigger] present(v)[i])
        }),
    decreases v.len(),
{
    reveal(Seq::filter);
    if v.len() > 0 {
        lemma_present_filter(v.drop_last());
    }
}

/// A unit of text gives back one message of the assistant that says it, with
/// the reasoning that stands right before it. Reasoning before a user's message
/// is given back with no other.
pub proof fn law_text_unit_gives_back_its_text(
    records: Seq<RolloutRecordV>,
    images: Seq<Seq<Option<ImageV>>>,
    system: Seq<char>,
    thought: Seq<char>,
    text: Seq<char>,
    user: RolloutRecordV,
)
    requires
        text.len() > 0,
        thought.len() > 0,
        user is User,
    ensures
        ({
            let h = rebuilt(records, images, system).history;
            let say = RolloutRecordV::Text { text };
            let think = RolloutRecordV::Reasoning { text: thought };
            let now = rebuilt(records.push(think).push(say), images, system);
            let asked = rebuilt(records.push(think).push(user), images, system).history;
            let later = rebuilt(records.push(think).push(user).push(say), images, system).history;
            &&& now.waiting is None
            &&& now.history == h.push(
                MsgV {
                    role: "assistant"@,
                    content: Some(text),
                    tool_calls: None,
                    tool_call_id: None,
                    images: Seq::empty(),
                    reasoning: Some(thought),
                },
            )
            &&& asked.len() == h.len() + 1 && asked.drop_last() == h
            &&& later == asked.push(
                MsgV {
                    role: "assistant"@,
                    content: Some(text),
                    tool_calls: None,
                    tool_call_id: None,
                    images: Seq::empty(),
                    reasoning: None,
                },
            )
        }),
{
    let say = RolloutRecordV::Text { text };
    let think = RolloutRecordV::Reasoning { text: thought };
    let a = records.push(think);
    assert(a.drop_last() =~= records);
    assert(a.push(say).drop_last() =~= a);
    assert(a.push(user).drop_last() =~= a);
    assert(a.push(user).push(say).drop_last() =~= a.push(user));
    let h = rebuilt(records, images, system).history;
    assert(rebuilt(a, images, system).history == h);
    assert(rebuilt(a.push(user), images, system).history.drop_last() =~= h);
}

/// A call gives back its result at the end, with its own output, and the call
/// itself with its own name and arguments, last among those of one message of
/// the assistant, which the result names. No other message from before changes,
/// and that one keeps its text, its reasoning and its earlier calls.
pub proof fn law_call_unit_gives_back_call_and_result(
    records: Seq<RolloutRecordV>,
    images: Seq<Seq<Option<ImageV>>>,
    system: Seq<char>,
    call: RolloutRecordV,
)
    requires
        call is ToolCall,
    ensures
        ({
            let h = rebuilt(records, images, system).history;
            let now = rebuilt(records.push(call), images, system).history;
            exists|k: int|
                0 <= k < now.len() - 1 && (#[trigger] now[k]).role == "assistant"@
                    && now[k].tool_calls is Some && now[k].tool_calls->0.len() > 0
                    && now[k].tool_calls->0.last().name == call->ToolCall_tool
                    && now[k].tool_calls->0.last().arguments == call->ToolCall_arguments
                    && now.last() == (MsgV {
                    role: "tool"@,
                    content: Some(call->ToolCall_output),
                    tool_calls: None,
                    tool_call_id: Some(now[k].tool_calls->0.last().id),
                    images: Seq::empty(),
                    reasoning: None,
                }) && (if k < h.len() {
                    &&& now.len() == h.len() + 1
                    &&& forall|i: int| 0 <= i < h.len() && i != k ==> #[trigger] now[i] == h[i]
                    &&& now[k].content == h[k].content && now[k].reasoning == h[k].reasoning
                        && h[k].role == "assistant"@
                    &&& match h[k].tool_calls {
                        Some(l) => now[k].tool_calls->0.drop_last() == l,
                        None => now[k].tool_calls->0.len() == 1,
                    }
                } else {
                    &&& k == h.len() && now.len() == h.len() + 2
                    &&& now.take(k) == h
                    &&& now[k].content is None && now[k].tool_calls->0.len() == 1
                })
        }),
{
    lemma_roles();
    let all = records.push(call);
    assert(all.drop_last() =~= records);
    let st = rebuilt(records, images, system);
    let h = st.history;
    let now = rebuilt(all, images, system).history;
    lemma_last_speaker_inside(h);
    let k = last_speaker(h);
    if k >= 0 && h[k].role == "assistant"@ && st.waiting is None {
        let m = now[k];
        assert(m.tool_calls is Some);
        if h[k].tool_calls is Some {
            assert(m.tool_calls->0.drop_last() =~= h[k].tool_calls->0);
        }
        assert(now.last() == now[now.len() - 1]);
        assert(now[k].role == "assistant"@);
    } else {
        let n = h.len() as int;
        assert(now.take(n) =~= h);
        assert(now[n].role == "assistant"@);
        assert(now[n].tool_calls->0.len() == 1);
    }
}

proof fn lemma_last_speaker_inside(h: Seq<MsgV>)
    ensures
        last_speaker(h) < h.len(),
    decreases h.len(),
{
    if h.len() > 0 {
        lemma_last_speaker_inside(h.drop_last());
    }
}

/// What stands for messages that were left out comes back as one message of
/// the system with the note; units that say nothing in the conversation add
/// nothing to it.
pub proof fn law_other_units(
    records: Seq<RolloutRecordV>,
    images: Seq<Seq<Option<ImageV>>>,
    system: Seq<char>,
    unit: RolloutRecordV,
)
    ensures
        ({
            let st = rebuilt(records, images, system);
            let now = rebuilt(records.push(unit), images, system);
            &&& unit matches RolloutRecordV::Compact { note, omitted: _ } ==> now.history
                == st.history.push(
                MsgV {
                    role: "system"@,
                    content: Some(note),
                    tool_calls: None,
                    tool_call_id: None,
                    images: Seq::empty(),
                    reasoning: None,
                },
            )
            &&& unit is Reasoning ==> now.history == st.history
            &&& unit is Meta || unit is TurnChanges || unit is TurnStats || unit is StepUsage
                ==> now == st
        }),
{
    assert(records.push(unit).drop_last() =~= records);
}

} // verus!
