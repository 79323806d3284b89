//! Typing text through `dotool`.
//!
//! `dotool` reads a line-oriented command script on its standard input. The
//! library decides everything about a typing request: whether anything is to
//! be typed, the exact script, which binary and pipe to use, which keyboard
//! layout variables to set, and how failures are reported. Text holding a
//! control character is refused before any output, so that it can never
//! start a command line of its own.
use vstd::prelude::*;
use std::path::PathBuf;
use crate::error::OutputError;
use crate::text::{decimal, has_control, is_control, lemma_decimal_digits, push_decimal, str_has_control, seq_contains, str_contains};

verus! {

/// `std::path::PathBuf`, carried through opaquely.
#[verifier::external_type_specification]
#[verifier::external_body]
pub struct ExPathBuf(PathBuf);

/// How `dotool` is to be started for one request.
#[derive(Debug)]
pub struct DotoolInvocation {
    /// The binary to run: `dotool`, or the daemon client `dotoolc`.
    pub binary: &'static str,
    /// The daemon pipe handed to `dotoolc` through `DOTOOL_PIPE`.
    pub pipe: Option<PathBuf>,
    /// Whether the XKB layout variables are passed to the process.
    pub set_layout_env: bool,
    /// Whether an available daemon was bypassed to honour a layout hint.
    pub skipped_daemon_for_layout: bool,
}

/// dotool-based text output with keyboard layout support.
pub struct DotoolOutput {
    /// Delay between keypresses in milliseconds
    pub type_delay_ms: u32,
    /// Delay before typing starts in milliseconds
    pub pre_type_delay_ms: u32,
    /// Whether to send Enter key after output
    pub auto_submit: bool,
    /// Text to append after transcription (before auto_submit)
    pub append_text: Option<String>,
    /// Keyboard layout (e.g., "de" for German, "fr" for French)
    pub xkb_layout: Option<String>,
    /// Keyboard layout variant (e.g., "nodeadkeys")
    pub xkb_variant: Option<String>,
}

/// Everything needed to type one non-empty text.
pub struct TypingPlan {
    /// Milliseconds to wait before starting the process.
    pub pre_type_delay_ms: u32,
    /// The command script written to the process.
    pub commands: String,
    /// The process to start.
    pub invocation: DotoolInvocation,
    /// Environment variables to set on the process, in order.
    pub env: Vec<(&'static str, String)>,
}

/// The message of the refusal of text with control characters.
pub open spec fn control_refusal() -> Seq<char> {
    "dotool cannot safely type control characters; use another output backend"@
}

/// The view of an optional string.
pub open spec fn opt_view(o: Option<String>) -> Option<Seq<char>> {
    match o {
        Some(s) => Some(s@),
        None => None,
    }
}

/// Whether an optional text holds a control character.
pub open spec fn opt_has_control(o: Option<Seq<char>>) -> bool {
    match o {
        Some(s) => has_control(s),
        None => false,
    }
}

/// The lines of the script that types `text`, in order, without their
/// terminating newlines.
pub open spec fn script_lines(
    type_delay_ms: u32,
    auto_submit: bool,
    append: Option<Seq<char>>,
    text: Seq<char>,
) -> Seq<Seq<char>> {
    let delays = if type_delay_ms > 0 {
        seq!["typedelay "@ + decimal(type_delay_ms as nat), "typehold "@ + decimal(type_delay_ms as nat)]
    } else {
        Seq::<Seq<char>>::empty()
    };
    let appended = match append {
        Some(a) => seq!["type "@ + a],
        None => Seq::<Seq<char>>::empty(),
    };
    let enter = if auto_submit {
        seq!["key enter"@]
    } else {
        Seq::<Seq<char>>::empty()
    };
    delays + seq!["type "@ + text] + appended + enter
}

/// Lines joined into a script, each terminated by a newline.
pub open spec fn join_lines(lines: Seq<Seq<char>>) -> Seq<char>
    decreases lines.len(),
{
    if lines.len() == 0 {
        Seq::<char>::empty()
    } else {
        lines[0] + seq!['\n'] + join_lines(lines.drop_first())
    }
}

/// Splits a script at its newlines, `cur` being the line read so far; an
/// unterminated last line counts as a line.
pub open spec fn split_lines_from(s: Seq<char>, cur: Seq<char>) -> Seq<Seq<char>>
    decreases s.len(),
{
    if s.len() == 0 {
        if cur.len() == 0 {
            Seq::<Seq<char>>::empty()
        } else {
            seq![cur]
        }
    } else if s[0] == '\n' {
        seq![cur] + split_lines_from(s.drop_first(), Seq::<char>::empty())
    } else {
        split_lines_from(s.drop_first(), cur.push(s[0]))
    }
}

/// The lines that a line-oriented reader sees in `s`.
pub open spec fn split_lines(s: Seq<char>) -> Seq<Seq<char>> {
    split_lines_from(s, Seq::<char>::empty())
}

/// `s` holds no newline.
pub open spec fn no_newline(s: Seq<char>) -> bool {
    forall|i: int| 0 <= i < s.len() ==> #[trigger] s[i] != '\n'
}

impl DotoolOutput {
    /// The script that types `text`.
    pub open spec fn spec_script(&self, text: Seq<char>) -> Seq<char> {
        join_lines(
            script_lines(self.type_delay_ms, self.auto_submit, opt_view(self.append_text), text),
        )
    }

    /// Whether a keyboard layout or variant hint is configured.
    pub open spec fn spec_has_xkb_override(&self) -> bool {
        self.xkb_layout is Some || self.xkb_variant is Some
    }

    /// The layout variables passed to the process when it takes them.
    pub open spec fn spec_layout_env(&self) -> Seq<(&'static str, String)> {
        let layout = match self.xkb_layout {
            Some(l) => seq![("DOTOOL_XKB_LAYOUT", l), ("XKB_DEFAULT_LAYOUT", l)],
            None => Seq::<(&'static str, String)>::empty(),
        };
        let variant = match self.xkb_variant {
            Some(v) => seq![("DOTOOL_XKB_VARIANT", v), ("XKB_DEFAULT_VARIANT", v)],
            None => Seq::<(&'static str, String)>::empty(),
        };
        layout + variant
    }

    /// Create a new dotool output
    pub fn new(
        type_delay_ms: u32,
        pre_type_delay_ms: u32,
        auto_submit: bool,
        append_text: Option<String>,
        xkb_layout: Option<String>,
        xkb_variant: Option<String>,
    ) -> (out: Self)
        ensures
            out.type_delay_ms == type_delay_ms,
            out.pre_type_delay_ms == pre_type_delay_ms,
            out.auto_submit == auto_submit,
            out.append_text == append_text,
            out.xkb_layout == xkb_layout,
            out.xkb_variant == xkb_variant,
    {
        Self { type_delay_ms, pre_type_delay_ms, auto_submit, append_text, xkb_layout, xkb_variant }
    }

    /// Shared FIFO discovery is disabled: no authenticated peer is available.
    /// Streaming backspace callers must also use direct dotool.
    pub fn live_daemon_pipe_path() -> (p: Option<PathBuf>)
        ensures
            p is None,
    {
        None
    }

    /// The shared daemon pipe used for typing: never discovered.
    pub fn daemon_pipe_path() -> (p: Option<PathBuf>)
        ensures
            p is None,
    {
        None
    }

    /// The command script that types `text`, or a refusal when `text` or the
    /// appended text holds a control character.
    pub fn build_commands(&self, text: &str) -> (r: Result<String, OutputError>)
        ensures
            match r {
                Ok(s) => !has_control(text@) && !opt_has_control(opt_view(self.append_text))
                    && s@ == self.spec_script(text@),
                Err(e) => (has_control(text@) || opt_has_control(opt_view(self.append_text)))
                    && e.is_injection(control_refusal()),
            },
    {
        let append_bad = match &self.append_text {
            Some(a) => str_has_control(a.as_str()),
            None => false,
        };
        if str_has_control(text) || append_bad {
            return Err(OutputError::InjectionFailed(
                String::from_str(
                    "dotool cannot safely type control characters; use another output backend",
                ),
            ));
        }
        let ghost lines = script_lines(
            self.type_delay_ms,
            self.auto_submit,
            opt_view(self.append_text),
            text@,
        );
        let ghost mut done: Seq<Seq<char>> = Seq::empty();
        let mut commands = String::new();
        proof {
            reveal_strlit("\n");
        }
        if self.type_delay_ms > 0 {
            let ghost before = commands@;
            commands.append("typedelay ");
            push_decimal(&mut commands, self.type_delay_ms as u64);
            commands.append("\n");
            proof {
                lemma_join_push(done, "typedelay "@ + decimal(self.type_delay_ms as nat));
                done = done.push("typedelay "@ + decimal(self.type_delay_ms as nat));
                assert(commands@ =~= join_lines(done));
            }
            commands.append("typehold ");
            push_decimal(&mut commands, self.type_delay_ms as u64);
            commands.append("\n");
            proof {
                lemma_join_push(done, "typehold "@ + decimal(self.type_delay_ms as nat));
                done = done.push("typehold "@ + decimal(self.type_delay_ms as nat));
                assert(commands@ =~= join_lines(done));
            }
        }
        commands.append("type ");
        commands.append(text);
        commands.append("\n");
        proof {
            lemma_join_push(done, "type "@ + text@);
            done = done.push("type "@ + text@);
            assert(commands@ =~= join_lines(done));
        }
        match &self.append_text {
            Some(append) => {
                commands.append("type ");
                commands.append(append.as_str());
                commands.append("\n");
                proof {
                    lemma_join_push(done, "type "@ + append@);
                    done = done.push("type "@ + append@);
                    assert(commands@ =~= join_lines(done));
                }
            },
            None => {},
        }
        if self.auto_submit {
            commands.append("key enter");
            commands.append("\n");
            proof {
                lemma_join_push(done, "key enter"@);
                done = done.push("key enter"@);
                assert(commands@ =~= join_lines(done));
            }
        }
        assert(done =~= lines);
        Ok(commands)
    }

    /// Whether a keyboard layout or variant hint is configured.
    pub fn has_xkb_override(&self) -> (r: bool)
        ensures
            r == self.spec_has_xkb_override(),
    {
        self.xkb_layout.is_some() || self.xkb_variant.is_some()
    }

    /// Chooses between direct `dotool` and the daemon client `dotoolc`:
    /// a layout hint always wins, since only a direct process honours it.
    pub fn choose_invocation(&self, daemon_pipe: Option<PathBuf>) -> (inv: DotoolInvocation)
        ensures
            self.spec_has_xkb_override() ==> {
                &&& inv.binary@ == "dotool"@
                &&& inv.pipe is None
                &&& inv.set_layout_env
                &&& inv.skipped_daemon_for_layout == daemon_pipe is Some
            },
            !self.spec_has_xkb_override() && daemon_pipe is Some ==> {
                &&& inv.binary@ == "dotoolc"@
                &&& inv.pipe == daemon_pipe
                &&& !inv.set_layout_env
                &&& !inv.skipped_daemon_for_layout
            },
            !self.spec_has_xkb_override() && daemon_pipe is None ==> {
                &&& inv.binary@ == "dotool"@
                &&& inv.pipe is None
                &&& inv.set_layout_env
                &&& !inv.skipped_daemon_for_layout
            },
    {
        if self.has_xkb_override() {
            return DotoolInvocation {
                binary: "dotool",
                pipe: None,
                set_layout_env: true,
                skipped_daemon_for_layout: daemon_pipe.is_some(),
            };
        }
        match daemon_pipe {
            Some(pipe) => DotoolInvocation {
                binary: "dotoolc",
                pipe: Some(pipe),
                set_layout_env: false,
                skipped_daemon_for_layout: false,
            },
            None => DotoolInvocation {
                binary: "dotool",
                pipe: None,
                set_layout_env: true,
                skipped_daemon_for_layout: false,
            },
        }
    }

    /// The layout variables to set on a process started as `invocation`:
    /// none unless it takes them; else the layout pair, then the variant pair.
    pub fn layout_env(&self, invocation: &DotoolInvocation) -> (env: Vec<(&'static str, String)>)
        ensures
            invocation.set_layout_env ==> env@ == self.spec_layout_env(),
            !invocation.set_layout_env ==> env@.len() == 0,
    {
        let mut env: Vec<(&'static str, String)> = Vec::new();
        if invocation.set_layout_env {
            match &self.xkb_layout {
                Some(layout) => {
                    env.push(("DOTOOL_XKB_LAYOUT", layout.clone()));
                    env.push(("XKB_DEFAULT_LAYOUT", layout.clone()));
                },
                None => {},
            }
            match &self.xkb_variant {
                Some(variant) => {
                    env.push(("DOTOOL_XKB_VARIANT", variant.clone()));
                    env.push(("XKB_DEFAULT_VARIANT", variant.clone()));
                },
                None => {},
            }
            assert(env@ =~= self.spec_layout_env());
        }
        env
    }

    /// What to do to type `text`: nothing for empty text (`Ok(None)`), the
    /// refusal of `build_commands`, or the full plan, started without a
    /// shared daemon.
    pub fn plan_output(&self, text: &str) -> (r: Result<Option<TypingPlan>, OutputError>)
        ensures
            text@.len() == 0 ==> r matches Ok(None),
            text@.len() > 0 ==> match r {
                Ok(None) => false,
                Ok(Some(plan)) => {
                    &&& !has_control(text@)
                    &&& !opt_has_control(opt_view(self.append_text))
                    &&& plan.pre_type_delay_ms == self.pre_type_delay_ms
                    &&& plan.commands@ == self.spec_script(text@)
                    &&& plan.invocation.binary@ == "dotool"@
                    &&& plan.invocation.pipe is None
                    &&& plan.invocation.set_layout_env
                    &&& !plan.invocation.skipped_daemon_for_layout
                    &&& plan.env@ == self.spec_layout_env()
                },
                Err(e) => (has_control(text@) || opt_has_control(opt_view(self.append_text)))
                    && e.is_injection(control_refusal()),
            },
    {
        if text.is_empty() {
            return Ok(None);
        }
        let commands = match self.build_commands(text) {
            Ok(c) => c,
            Err(e) => return Err(e),
        };
        let invocation = self.choose_invocation(Self::daemon_pipe_path());
        let env = self.layout_env(&invocation);
        Ok(Some(TypingPlan { pre_type_delay_ms: self.pre_type_delay_ms, commands, invocation, env }))
    }
}

/// The error for a `binary` process that could not be started; `not_found`
/// tells whether the binary was missing, `detail` describes the failure.
pub fn spawn_failure(binary: &str, not_found: bool, detail: &str) -> (e: OutputError)
    ensures
        not_found ==> e is DotoolNotFound,
        !not_found ==> e.is_injection("Failed to spawn "@ + binary@ + ": "@ + detail@),
{
    if not_found {
        OutputError::DotoolNotFound
    } else {
        let mut m = String::from_str("Failed to spawn ");
        m.append(binary);
        m.append(": ");
        m.append(detail);
        OutputError::InjectionFailed(m)
    }
}

/// The error for a failed write of the script to the standard input of
/// `binary`.
pub fn write_failure(binary: &str, detail: &str) -> (e: OutputError)
    ensures
        e.is_injection("Failed to write to "@ + binary@ + " stdin: "@ + detail@),
{
    let mut m = String::from_str("Failed to write to ");
    m.append(binary);
    m.append(" stdin: ");
    m.append(detail);
    OutputError::InjectionFailed(m)
}

/// The error for a failed wait on `binary`.
pub fn wait_failure(binary: &str, detail: &str) -> (e: OutputError)
    ensures
        e.is_injection("Failed to wait for "@ + binary@ + ": "@ + detail@),
{
    let mut m = String::from_str("Failed to wait for ");
    m.append(binary);
    m.append(": ");
    m.append(detail);
    OutputError::InjectionFailed(m)
}

/// The error for a `binary` process that exited unsuccessfully with
/// `stderr`: a permission diagnosis when it mentions `uinput` or
/// `permission`, else the error output itself.
pub fn exit_failure(binary: &str, stderr: &str) -> (e: OutputError)
    ensures
        (seq_contains(stderr@, "uinput"@) || seq_contains(stderr@, "permission"@)) 
            ==> e.is_injection(binary@ + ": uinput permission denied. Is user in 'input' group?"@),
        !(seq_contains(stderr@, "uinput"@) || seq_contains(stderr@, "permission"@)) 
            ==> e.is_injection(binary@ + " exited with error: "@ + stderr@),
{
    if str_contains(stderr, "uinput") || str_contains(stderr, "permission") {
        let mut m = String::from_str(binary);
        m.append(": uinput permission denied. Is user in 'input' group?");
        OutputError::InjectionFailed(m)
    } else {
        let mut m = String::from_str(binary);
        m.append(" exited with error: ");
        m.append(stderr);
        OutputError::InjectionFailed(m)
    }
}

/// Reading a newline-free piece moves it onto the current line.
proof fn lemma_split_line_body(c: Seq<char>, rest: Seq<char>, cur: Seq<char>)
    requires
        no_newline(c),
    ensures
        split_lines_from(c + rest, cur) == split_lines_from(rest, cur + c),
    decreases c.len(),
{
    if c.len() == 0 {
        assert(c + rest =~= rest);
        assert(cur + c =~= cur);
    } else {
        let s = c + rest;
        assert(s[0] == c[0]);
        assert(s.drop_first() =~= c.drop_first() + rest);
        assert(c[0] != '\n');
        lemma_split_line_body(c.drop_first(), rest, cur.push(c[0]));
        assert(cur.push(c[0]) + c.drop_first() =~= cur + c);
    }
}

/// Newline-free lines joined into a script are read back as exactly those
/// lines.
pub proof fn lemma_split_join(lines: Seq<Seq<char>>)
    requires
        forall|i: int| 0 <= i < lines.len() ==> no_newline(#[trigger] lines[i]),
    ensures
        split_lines(join_lines(lines)) == lines,
    decreases lines.len(),
{
    if lines.len() > 0 {
        let rest = join_lines(lines.drop_first());
        let t = seq!['\n'] + rest;
        assert(lines[0] + seq!['\n'] + rest =~= lines[0] + t);
        assert(no_newline(lines[0]));
        lemma_split_line_body(lines[0], t, Seq::<char>::empty());
        assert(t[0] == '\n');
        assert(t.drop_first() =~= rest);
        assert(Seq::<char>::empty() + lines[0] =~= lines[0]);
        assert forall|i: int| 0 <= i < lines.drop_first().len() implies no_newline(
            #[trigger] lines.drop_first()[i],
        ) by {
            assert(lines.drop_first()[i] == lines[i + 1]);
        }
        lemma_split_join(lines.drop_first());
        assert(lines =~= seq![lines[0]] + lines.drop_first());
    }
}

/// A command word followed by a decimal number holds no newline.
proof fn lemma_word_decimal_no_newline(word: Seq<char>, n: nat)
    requires
        no_newline(word),
    ensures
        no_newline(word + decimal(n)),
{
    lemma_decimal_digits(n);
    assert forall|i: int| 0 <= i < (word + decimal(n)).len() implies #[trigger] (word
        + decimal(n))[i] != '\n' by {
        if i >= word.len() {
            let ch = decimal(n)[i - word.len()];
            assert((word + decimal(n))[i] == ch);
            assert(48 <= (ch as u32) <= 57);
            assert(('\n' as u32) == 10);
        }
    }
}

/// Text without control characters holds no newline.
proof fn lemma_word_text_no_newline(word: Seq<char>, text: Seq<char>)
    requires
        no_newline(word),
        !has_control(text),
    ensures
        no_newline(word + text),
{
    assert forall|i: int| 0 <= i < (word + text).len() implies #[trigger] (word + text)[i]
        != '\n' by {
        if i >= word.len() {
            let k = i - word.len();
            assert((word + text)[i] == text[k]);
            assert(!is_control(text[k]));
        }
    }
}

/// Law: a script that `build_commands` accepts is read by a line-oriented
/// reader as exactly the intended command lines, so the typed text can
/// neither add a command nor alter one.
pub proof fn lemma_script_reads_back(out: DotoolOutput, text: Seq<char>)
    requires
        !has_control(text),
        !opt_has_control(opt_view(out.append_text)),
    ensures
        split_lines(out.spec_script(text)) == script_lines(
            out.type_delay_ms,
            out.auto_submit,
            opt_view(out.append_text),
            text,
        ),
{
    reveal_strlit("typedelay ");
    reveal_strlit("typehold ");
    reveal_strlit("type ");
    reveal_strlit("key enter");
    let lines = script_lines(out.type_delay_ms, out.auto_submit, opt_view(out.append_text), text);
    lemma_word_decimal_no_newline("typedelay "@, out.type_delay_ms as nat);
    lemma_word_decimal_no_newline("typehold "@, out.type_delay_ms as nat);
    lemma_word_text_no_newline("type "@, text);
    match opt_view(out.append_text) {
        Some(a) => {
            lemma_word_text_no_newline("type "@, a);
        },
        None => {},
    }
    assert(no_newline("key enter"@));
    assert forall|i: int| 0 <= i < lines.len() implies no_newline(#[trigger] lines[i]) by {}
    lemma_split_join(lines);
}

/// Joining one more line appends it and its newline.
pub proof fn lemma_join_push(lines: Seq<Seq<char>>, line: Seq<char>)
    ensures
        join_lines(lines.push(line)) =~= join_lines(lines) + line + seq!['\n'],
    decreases lines.len(),
{
    let pushed = lines.push(line);
    if lines.len() == 0 {
        assert(pushed.drop_first() =~= Seq::<Seq<char>>::empty());
        assert(pushed[0] == line);
        assert(join_lines(pushed) == line + seq!['\n'] + join_lines(pushed.drop_first()));
    } else {
        lemma_join_push(lines.drop_first(), line);
        assert(pushed.drop_first() =~= lines.drop_first().push(line));
        assert(pushed[0] == lines[0]);
        assert(join_lines(pushed) == lines[0] + seq!['\n'] + join_lines(pushed.drop_first()));
        assert(join_lines(lines) == lines[0] + seq!['\n'] + join_lines(lines.drop_first()));
    }
}


/// Law: the script of an accepted text, read line by line, is the typing
/// delays when there is a delay, then `type ` and the text, then `type `
/// and the appended text whenever there is one (whether or not Enter
/// follows), then `key enter` exactly when auto-submit is on, and nothing
/// else. Without a delay or auto-submit, a text with an appended text is
/// the two-line script `type <text>` and `type <appended>`.
pub proof fn lemma_script_layout(out: DotoolOutput, text: Seq<char>)
    requires
        !has_control(text),
        !opt_has_control(opt_view(out.append_text)),
    ensures
        ({
            let lines = split_lines(out.spec_script(text));
            let d: int = if out.type_delay_ms > 0 { 2 } else { 0 };
            let na: int = if out.append_text is Some { 1 } else { 0 };
            &&& lines.len() == d + 1 + na + if out.auto_submit { 1int } else { 0int }
            &&& out.type_delay_ms > 0 ==> lines[0] == "typedelay "@ + decimal(
                out.type_delay_ms as nat,
            ) && lines[1] == "typehold "@ + decimal(out.type_delay_ms as nat)
            &&& lines[d] == "type "@ + text
            &&& (out.append_text matches Some(a) ==> lines[d + 1] == "type "@ + a@)
            &&& out.auto_submit ==> lines[lines.len() - 1] == "key enter"@
        }),
        out.type_delay_ms == 0 && !out.auto_submit ==> (out.append_text matches Some(a)
            ==> out.spec_script(text) == "type "@ + text + "\n"@ + "type "@ + a@ + "\n"@),
        out.type_delay_ms == 0 && !out.auto_submit && out.append_text is None
            ==> out.spec_script(text) == "type "@ + text + "\n"@,
{
    lemma_script_reads_back(out, text);
    reveal_strlit("\n");
    let lines = script_lines(out.type_delay_ms, out.auto_submit, opt_view(out.append_text), text);
    if out.type_delay_ms == 0 && !out.auto_submit {
        let e = Seq::<Seq<char>>::empty();
        assert(join_lines(e) =~= Seq::<char>::empty());
        lemma_join_push(e, "type "@ + text);
        match out.append_text {
            Some(a) => {
                let one = e.push("type "@ + text);
                lemma_join_push(one, "type "@ + a@);
                assert(lines =~= one.push("type "@ + a@));
                assert(join_lines(lines) =~= "type "@ + text + "\n"@ + "type "@ + a@ + "\n"@);
            },
            None => {
                assert(lines =~= e.push("type "@ + text));
                assert(join_lines(lines) =~= "type "@ + text + "\n"@);
            },
        }
    }
}

/// Law: the layout variables follow the hints alone: the layout, when
/// given, is passed as `DOTOOL_XKB_LAYOUT` and `XKB_DEFAULT_LAYOUT` whether
/// or not a variant is given, and the variant, when given, as
/// `DOTOOL_XKB_VARIANT` and `XKB_DEFAULT_VARIANT` whether or not a layout
/// is given; there are no other variables.
pub proof fn lemma_layout_env_follows_hints(out: DotoolOutput)
    ensures
        ({
            let env = out.spec_layout_env();
            let nl: int = if out.xkb_layout is Some { 2 } else { 0 };
            let nv: int = if out.xkb_variant is Some { 2 } else { 0 };
            &&& env.len() == nl + nv
            &&& (out.xkb_layout matches Some(l) ==> env[0].0@ == "DOTOOL_XKB_LAYOUT"@
                && env[0].1 == l && env[1].0@ == "XKB_DEFAULT_LAYOUT"@ && env[1].1 == l)
            &&& (out.xkb_variant matches Some(v) ==> env[nl].0@ == "DOTOOL_XKB_VARIANT"@
                && env[nl].1 == v && env[nl + 1].0@ == "XKB_DEFAULT_VARIANT"@ && env[nl + 1].1
                == v)
        }),
{
}

} // verus!
