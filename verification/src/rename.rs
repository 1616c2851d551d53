//! Renaming a device: the name is written through the shell of the device and read back.

use vstd::prelude::*;

use crate::text::{
    char_debug, chars_of, concat2, concat3, debug_char, debug_text, decimal, decimal_text, join,
    replace_char, replaced, replacing_joins_the_pieces, same, split, text_debug, trim, trimmed,
    trimming_takes_the_white_ends_alone,
};

verus! {

/// The longest device name, in bytes.
pub const MAX_DEVICE_NAME_LEN: usize = 64;

/// The length of a text in bytes of UTF-8.
pub open spec fn byte_len(s: Seq<char>) -> usize {
    vstd::utf8::encode_utf8(s).len() as usize
}

/// Printable ASCII: what rides through the shell of the device unharmed.
pub open spec fn plain_char(c: char) -> bool {
    ' ' <= c <= '~'
}

/// The first character from `i` on that is not printable ASCII.
pub open spec fn first_odd_char(s: Seq<char>, i: int) -> Option<char>
    decreases s.len() - i,
{
    if i < 0 || i >= s.len() {
        None
    } else if !plain_char(s[i]) {
        Some(s[i])
    } else {
        first_odd_char(s, i + 1)
    }
}

/// A text in single quotes, as one word of a shell command.
pub open spec fn shell_quoted(s: Seq<char>) -> Seq<char> {
    "'"@ + replaced(s, '\'', "'\\''"@) + "'"@
}

/// The quoted form of a device name, or what is wrong with it.
pub open spec fn quoted_device_name(name: Seq<char>) -> Result<Seq<char>, Seq<char>> {
    let name = trimmed(name);
    if name.len() == 0 {
        Err("Device name is empty."@)
    } else if byte_len(name) > MAX_DEVICE_NAME_LEN {
        Err("Device name too long ("@ + decimal(byte_len(name) as nat) + " > 64 chars)."@)
    } else {
        match first_odd_char(name, 0) {
            Some(bad) => Err(
                "Unsupported character "@ + char_debug(bad)
                    + " — device names are limited to plain ASCII here."@,
            ),
            None => Ok(shell_quoted(name)),
        }
    }
}

/// Validates a device name and quotes it for the shell of the device. Only printable ASCII
/// is taken: adb mangles anything else, and an honest rejection beats a garbled name.
pub fn quote_device_name(name: &str) -> (r: Result<String, String>)
    ensures
        crate::address::result_text(r) == quoted_device_name(name@),
{
    let plain = trim(name);
    if plain.is_empty() {
        return Err("Device name is empty.".to_owned());
    }
    let bytes: usize = plain.len();
    if bytes > MAX_DEVICE_NAME_LEN {
        let count = decimal_text(bytes as u64);
        return Err(concat3("Device name too long (", count.as_str(), " > 64 chars)."));
    }
    let chars = chars_of(plain);
    let mut i: usize = 0;
    while i < chars.len()
        invariant
            chars@ == plain@,
            plain@ == trimmed(name@),
            plain@.len() > 0,
            byte_len(plain@) <= MAX_DEVICE_NAME_LEN,
            i <= chars@.len(),
            first_odd_char(plain@, 0) == first_odd_char(plain@, i as int),
        decreases chars@.len() - i,
    {
        let c: char = chars[i];
        if !(' ' <= c && c <= '~') {
            let shown = debug_char(c);
            return Err(
                concat3(
                    "Unsupported character ",
                    shown.as_str(),
                    " — device names are limited to plain ASCII here.",
                ),
            );
        }
        i = i + 1;
    }
    let escaped = replace_char(plain, '\'', "'\\''");
    Ok(concat3("'", escaped.as_str(), "'"))
}

// ---------------------------------------------------------------------------
// The rename.
// ---------------------------------------------------------------------------

/// What an action came to, as the UI shows it.
#[derive(Debug, Clone, PartialEq, Eq)]
pub struct ActionResult {
    pub ok: bool,
    pub message: String,
}

/// What the shell of the device answered.
#[derive(Debug, Clone, PartialEq, Eq)]
pub struct ShellReply {
    pub stdout: String,
    /// Both streams in one text.
    pub combined: String,
    /// The shell reported that the command failed.
    pub failed: bool,
}

/// Which command of a rename the device is working on.
#[derive(Debug, Clone, Copy, PartialEq, Eq, Structural)]
pub enum RenameStage {
    /// The name is being written.
    Writing,
    /// The name is being read back.
    ReadingBack,
}

/// What is to be done next.
#[derive(Debug, Clone, PartialEq, Eq)]
pub enum RenameAction {
    /// This command goes to the shell of the device, and its reply to the next step.
    Shell(RenameStage, String),
    /// Nothing more is sent; this is the result.
    Finish(ActionResult),
}

/// The action as a model.
pub enum RenameActionView {
    Shell(RenameStage, Seq<char>),
    Finish(bool, Seq<char>),
}

impl View for RenameAction {
    type V = RenameActionView;

    open spec fn view(&self) -> RenameActionView {
        match self {
            RenameAction::Shell(stage, command) => RenameActionView::Shell(*stage, command@),
            RenameAction::Finish(result) => RenameActionView::Finish(result.ok, result.message@),
        }
    }
}

/// The first action of a rename: a name that cannot be written is refused before anything
/// is sent.
pub open spec fn rename_started(name: Seq<char>) -> RenameActionView {
    match quoted_device_name(name) {
        Ok(quoted) => RenameActionView::Shell(
            RenameStage::Writing,
            "settings put global device_name "@ + quoted,
        ),
        Err(message) => RenameActionView::Finish(false, message),
    }
}

/// The action that follows a reply. Only the name that is read back confirms the write:
/// `settings put` is quiet even where the write did not take.
pub open spec fn rename_continued(
    name: Seq<char>,
    stage: RenameStage,
    reply: ShellReply,
) -> RenameActionView {
    match stage {
        RenameStage::Writing => if reply.failed {
            RenameActionView::Finish(false, trimmed(reply.combined@))
        } else {
            RenameActionView::Shell(
                RenameStage::ReadingBack,
                "settings get global device_name"@,
            )
        },
        RenameStage::ReadingBack => {
            let current = trimmed(reply.stdout@);
            if current == trimmed(name) {
                RenameActionView::Finish(
                    true,
                    "Renamed to \""@ + current
                        + "\". Cast / Google Home may take a while (or a reboot) to show the new name."@,
                )
            } else {
                RenameActionView::Finish(
                    false,
                    "Device still reports device_name = "@ + text_debug(current)
                        + " after the write."@,
                )
            }
        },
    }
}

/// The first action of a rename.
pub fn start_rename(name: &str) -> (r: RenameAction)
    ensures
        r@ == rename_started(name@),
{
    match quote_device_name(name) {
        Ok(quoted) => RenameAction::Shell(
            RenameStage::Writing,
            concat2("settings put global device_name ", quoted.as_str()),
        ),
        Err(message) => RenameAction::Finish(ActionResult { ok: false, message }),
    }
}

/// The action that follows the reply to the command of `stage`.
pub fn continue_rename(name: &str, stage: RenameStage, reply: &ShellReply) -> (r: RenameAction)
    ensures
        r@ == rename_continued(name@, stage, *reply),
{
    match stage {
        RenameStage::Writing => {
            if reply.failed {
                RenameAction::Finish(
                    ActionResult { ok: false, message: trim(reply.combined.as_str()).to_owned() },
                )
            } else {
                RenameAction::Shell(
                    RenameStage::ReadingBack,
                    "settings get global device_name".to_owned(),
                )
            }
        },
        RenameStage::ReadingBack => {
            let current = trim(reply.stdout.as_str());
            if same(current, trim(name)) {
                let message = concat3(
                    "Renamed to \"",
                    current,
                    "\". Cast / Google Home may take a while (or a reboot) to show the new name.",
                );
                RenameAction::Finish(ActionResult { ok: true, message })
            } else {
                let shown = debug_text(current);
                let message = concat3(
                    "Device still reports device_name = ",
                    shown.as_str(),
                    " after the write.",
                );
                RenameAction::Finish(ActionResult { ok: false, message })
            }
        },
    }
}

// ---------------------------------------------------------------------------
// Laws.
// ---------------------------------------------------------------------------

/// Where a shell stands in the middle of a word.
pub enum WordMode {
    Plain,
    Quoted,
    Escaped,
    /// The word has ended, or something else than text was read.
    Ended,
}

/// What a shell has read of a word.
pub struct Word {
    pub text: Seq<char>,
    pub mode: WordMode,
}

/// A shell reads one more character: between single quotes every character stands for
/// itself, a backslash outside them makes the next one stand for itself, and any other
/// character outside them is taken to end the word.
pub open spec fn read_char(word: Word, c: char) -> Word {
    match word.mode {
        WordMode::Plain => if c == '\'' {
            Word { mode: WordMode::Quoted, ..word }
        } else if c == '\\' {
            Word { mode: WordMode::Escaped, ..word }
        } else {
            Word { mode: WordMode::Ended, ..word }
        },
        WordMode::Quoted => if c == '\'' {
            Word { mode: WordMode::Plain, ..word }
        } else {
            Word { text: word.text.push(c), ..word }
        },
        WordMode::Escaped => Word { text: word.text.push(c), mode: WordMode::Plain },
        WordMode::Ended => word,
    }
}

/// What a shell makes of a text.
pub open spec fn read_word(s: Seq<char>) -> Word
    decreases s.len(),
{
    if s.len() == 0 {
        Word { text: Seq::empty(), mode: WordMode::Plain }
    } else {
        read_char(read_word(s.drop_last()), s.last())
    }
}

proof fn lemma_read_word_push(s: Seq<char>, c: char)
    ensures
        read_word(s.push(c)) == read_char(read_word(s), c),
{
    assert(s.push(c).drop_last() =~= s);
}

proof fn lemma_read_quoted(s: Seq<char>)
    ensures
        read_word("'"@ + replaced(s, '\'', "'\\''"@)) == (Word {
            text: s,
            mode: WordMode::Quoted,
        }),
    decreases s.len(),
{
    reveal_strlit("'");
    reveal_strlit("'\\''");
    let open = "'"@;
    if s.len() == 0 {
        assert(open + replaced(s, '\'', "'\\''"@) =~= Seq::<char>::empty().push('\''));
        lemma_read_word_push(Seq::empty(), '\'');
        assert(read_word(Seq::<char>::empty()).text =~= s);
    } else {
        let front = s.drop_last();
        let c = s.last();
        lemma_read_quoted(front);
        let done = open + replaced(front, '\'', "'\\''"@);
        assert(front.push(c) =~= s);
        if c == '\'' {
            assert(open + replaced(s, '\'', "'\\''"@) =~= done.push('\'').push('\\').push(
                '\'',
            ).push('\''));
            lemma_read_word_push(done, '\'');
            lemma_read_word_push(done.push('\''), '\\');
            lemma_read_word_push(done.push('\'').push('\\'), '\'');
            lemma_read_word_push(done.push('\'').push('\\').push('\''), '\'');
        } else {
            assert(open + replaced(s, '\'', "'\\''"@) =~= done.push(c));
            lemma_read_word_push(done, c);
        }
    }
}

/// The shell of the device reads a quoted name as exactly one word, and that word is the
/// name: no name can end the word early or add a command.
pub proof fn quoted_names_reach_the_device_whole(s: Seq<char>)
    ensures
        read_word(shell_quoted(s)) == (Word { text: s, mode: WordMode::Plain }),
{
    reveal_strlit("'");
    lemma_read_quoted(s);
    let inner = "'"@ + replaced(s, '\'', "'\\''"@);
    assert(shell_quoted(s) =~= inner.push('\''));
    lemma_read_word_push(inner, '\'');
}

/// A rename succeeds only where the device reports the new name.
pub proof fn a_rename_is_confirmed_by_the_device(
    name: Seq<char>,
    stage: RenameStage,
    reply: ShellReply,
)
    ensures
        rename_continued(name, stage, reply) matches RenameActionView::Finish(ok, _) && ok ==> stage
            == RenameStage::ReadingBack && trimmed(reply.stdout@) == trimmed(name),
        !(rename_started(name) matches RenameActionView::Finish(ok, _) && ok),
{
}

proof fn lemma_first_odd(s: Seq<char>, i: int)
    requires
        0 <= i,
    ensures
        first_odd_char(s, i) is None <==> forall|j: int|
            i <= j < s.len() ==> 32 <= (#[trigger] s[j]) as int <= 126,
        first_odd_char(s, i) matches Some(c) ==> exists|j: int|
            i <= j < s.len() && #[trigger] s[j] == c && !(32 <= c as int <= 126) && forall|k: int|
                i <= k < j ==> 32 <= (#[trigger] s[k]) as int <= 126,
    decreases s.len() - i,
{
    if i < s.len() && plain_char(s[i]) {
        lemma_first_odd(s, i + 1);
        assert(32 <= s[i] as int <= 126);
        if first_odd_char(s, i + 1) is Some {
            let c = first_odd_char(s, i + 1)->Some_0;
            let j = choose|j: int|
                i + 1 <= j < s.len() && #[trigger] s[j] == c && !(32 <= c as int <= 126)
                    && forall|k: int| i + 1 <= k < j ==> 32 <= (#[trigger] s[k]) as int <= 126;
            assert(s[j] == c);
        }
    } else if i < s.len() {
        assert(!(32 <= s[i] as int <= 126));
    }
}

/// A name is taken if and only if, without the white space round it, it is of one to 64
/// characters of printable ASCII. What is sent is then the name as one quoted word.
pub proof fn a_name_is_taken_if_it_is_plain(name: Seq<char>)
    requires
        name.len() <= u32::MAX,
    ensures
        quoted_device_name(name) is Ok <==> {
            &&& 1 <= trimmed(name).len() <= 64
            &&& forall|i: int|
                0 <= i < trimmed(name).len() ==> 32 <= (#[trigger] trimmed(name)[i]) as int <= 126
        },
        quoted_device_name(name) matches Ok(quoted) ==> {
            &&& quoted == "'"@ + join(split(trimmed(name), '\''), "'\\''"@) + "'"@
            &&& read_word(quoted).text == trimmed(name)
            &&& read_word(quoted).mode is Plain
        },
{
    let plain = trimmed(name);
    let _ = trimming_takes_the_white_ends_alone(name);
    lemma_first_odd(plain, 0);
    quoted_names_reach_the_device_whole(plain);
    replacing_joins_the_pieces(plain, '\'', "'\\''"@);
    if forall|i: int| 0 <= i < plain.len() ==> 32 <= (#[trigger] plain[i]) as int <= 126 {
        assert(vstd::utf8::is_ascii_chars(plain));
        vstd::utf8::is_ascii_chars_encode_utf8(plain);
    }
}

/// A name that is not taken is refused for the first of three reasons: it is empty, it is too
/// long, or it holds a character that is not printable ASCII, the first of which is shown.
pub proof fn a_refused_name_is_told_why(name: Seq<char>)
    ensures
        ({
            let plain = trimmed(name);
            let refused = quoted_device_name(name);
            &&& plain.len() == 0 ==> refused is Err && refused->Err_0 == "Device name is empty."@
            &&& plain.len() > 0 && byte_len(plain) > 64 ==> refused is Err && refused->Err_0
                == "Device name too long ("@ + decimal(byte_len(plain) as nat) + " > 64 chars)."@
            &&& forall|i: int|
                0 <= i < plain.len() && byte_len(plain) <= 64 && !(32 <= (#[trigger] plain[i]) as int
                    <= 126) && (forall|j: int|
                    0 <= j < i ==> 32 <= (#[trigger] plain[j]) as int <= 126) ==> refused is Err
                    && refused->Err_0 == "Unsupported character "@ + char_debug(plain[i])
                    + " — device names are limited to plain ASCII here."@
        }),
{
    let plain = trimmed(name);
    lemma_first_odd(plain, 0);
    assert forall|i: int|
        0 <= i < plain.len() && !(32 <= (#[trigger] plain[i]) as int <= 126) && (forall|j: int|
            0 <= j < i ==> 32 <= (#[trigger] plain[j]) as int <= 126) implies first_odd_char(
        plain,
        0,
    ) == Some(plain[i]) by {
        let c = first_odd_char(plain, 0)->Some_0;
        let k = choose|k: int|
            0 <= k < plain.len() && #[trigger] plain[k] == c && !(32 <= c as int <= 126)
                && forall|j: int| 0 <= j < k ==> 32 <= (#[trigger] plain[j]) as int <= 126;
        if k < i {
            assert(32 <= plain[k] as int <= 126);
        } else if i < k {
            assert(32 <= plain[i] as int <= 126);
        }
    }
}

/// A rename writes the name, reads it back unless the write failed, and tells success if and
/// only if what is read back is the name; a failed write is told in the words of the device, and
/// a name that did not take with what the device reports.
pub proof fn a_rename_goes_step_by_step(name: Seq<char>, reply: ShellReply)
    ensures
        match quoted_device_name(name) {
            Ok(quoted) => rename_started(name) matches RenameActionView::Shell(stage, command)
                && stage == RenameStage::Writing && command == "settings put global device_name "@
                + quoted,
            Err(said) => rename_started(name) matches RenameActionView::Finish(ok, message) && !ok
                && message == said,
        },
        reply.failed ==> (rename_continued(name, RenameStage::Writing, reply)
            matches RenameActionView::Finish(ok, message) && !ok && message == trimmed(
            reply.combined@,
        )),
        !reply.failed ==> (rename_continued(name, RenameStage::Writing, reply)
            matches RenameActionView::Shell(stage, command) && stage == RenameStage::ReadingBack
            && command == "settings get global device_name"@),
        rename_continued(name, RenameStage::ReadingBack, reply) matches RenameActionView::Finish(
            ok,
            message,
        ) && (ok <==> trimmed(reply.stdout@) == trimmed(name)) && (ok ==> message
            == "Renamed to \""@ + trimmed(name)
            + "\". Cast / Google Home may take a while (or a reboot) to show the new name."@) && (!ok
            ==> message == "Device still reports device_name = "@ + text_debug(
            trimmed(reply.stdout@),
        ) + " after the write."@),
{
}

} // verus!
