//! A build: how it is configured, what it has printed so far, and how it ended.

use crate::ansi::{law_plain_text_is_kept, without_escapes};
use crate::diagnostic::{views, Diagnostic, DiagnosticView};
use crate::parser::{diagnostic_view, parsed_line, Parser};
use crate::text::{
    law_both_ends_are_trimmed, law_trimming_undoes_indentation, lemma_texts_push, text_of, texts,
    trimmed, white_space,
};
use vstd::prelude::*;

verus! {

/// How many lines of context a diagnostic keeps.
pub const CONTEXT_LIMIT: usize = 8;

/// `d` with `line` as one more line of context.
pub open spec fn with_context(d: DiagnosticView, line: Seq<char>) -> DiagnosticView {
    DiagnosticView { context: d.context.push(line), ..d }
}

/// The diagnostics after a line of context for the one at `last`.
pub open spec fn attached(
    diagnostics: Seq<DiagnosticView>,
    last: Option<nat>,
    line: Seq<char>,
) -> Seq<DiagnosticView> {
    match last {
        Some(i) => if i < diagnostics.len() && diagnostics[i as int].context.len() < CONTEXT_LIMIT {
            diagnostics.update(i as int, with_context(diagnostics[i as int], line))
        } else {
            diagnostics
        },
        None => diagnostics,
    }
}

/// A place as a number without bound.
pub open spec fn place(index: Option<usize>) -> Option<nat> {
    match index {
        Some(i) => Some(i as nat),
        None => None,
    }
}

/// What a stream of output has led to: all diagnostics so far, and the place of
/// the last one that came from this stream.
pub struct StreamView {
    pub diagnostics: Seq<DiagnosticView>,
    pub last: Option<nat>,
}

/// One more line: a diagnostic of its own, or else a line of context unless it
/// is blank.
pub open spec fn stepped(
    state: StreamView,
    parsed: Option<DiagnosticView>,
    text: Seq<char>,
) -> StreamView {
    match parsed {
        Some(d) => StreamView {
            diagnostics: state.diagnostics.push(d),
            last: Some(state.diagnostics.len()),
        },
        None => if text.len() > 0 {
            StreamView {
                diagnostics: attached(state.diagnostics, state.last, text),
                last: state.last,
            }
        } else {
            state
        },
    }
}

/// The text of a raw line: no escape sequences, no white space around it.
pub open spec fn line_text(raw: Seq<char>) -> Seq<char> {
    trimmed(without_escapes(raw))
}

/// The lines of a stream, one after the other.
pub open spec fn streamed(state: StreamView, lines: Seq<Seq<char>>) -> StreamView
    decreases lines.len(),
{
    if lines.len() == 0 {
        state
    } else {
        stepped(
            streamed(state, lines.drop_last()),
            parsed_line(lines.last()),
            line_text(lines.last()),
        )
    }
}

/// Enters one line of output, given the diagnostic and the text that were read
/// on it. Returns the place of the stream's last diagnostic.
pub fn record_line(
    diagnostics: &mut Vec<Diagnostic>,
    last: Option<usize>,
    parsed: Option<Diagnostic>,
    text: &str,
) -> (res: Option<usize>)
    ensures
        (StreamView { diagnostics: views(final(diagnostics)@), last: place(res) }) == stepped(
            StreamView { diagnostics: views(old(diagnostics)@), last: place(last) },
            diagnostic_view(parsed),
            text@,
        ),
        parsed matches Some(d) ==> final(diagnostics)@ == old(diagnostics)@.push(d) && res == Some(
            old(diagnostics)@.len() as usize,
        ),
        parsed is None ==> res == last && final(diagnostics)@.len() == old(diagnostics)@.len(),
        parsed is None && text@.len() == 0 ==> final(diagnostics)@ == old(diagnostics)@,
{
    let ghost before = diagnostics@;
    match parsed {
        Some(d) => {
            let index: usize = diagnostics.len();
            diagnostics.push(d);
            assert(views(diagnostics@) =~= views(before).push(d@));
            Some(index)
        },
        None => {
            if !text.is_empty() {
                if let Some(i) = last {
                    if i < diagnostics.len() && diagnostics[i].context.len() < CONTEXT_LIMIT {
                        let line: String = text.to_owned();
                        proof {
                            lemma_texts_push(diagnostics@[i as int].context@, line);
                        }
                        diagnostics[i].context.push(line);
                        assert(views(diagnostics@) =~= views(before).update(
                            i as int,
                            with_context(views(before)[i as int], text@),
                        ));
                    }
                }
            }
            last
        },
    }
}

/// What a build has printed so far, and whether and how it has ended.
pub struct Build {
    pub diagnostics: Vec<Diagnostic>,
    pub raw_lines: Vec<String>,
    pub build_done: bool,
    pub build_success: bool,
}

#[verifier::ext_equal]
pub struct BuildView {
    pub diagnostics: Seq<DiagnosticView>,
    pub raw_lines: Seq<Seq<char>>,
    pub build_done: bool,
    pub build_success: bool,
}

impl View for Build {
    type V = BuildView;

    open spec fn view(&self) -> BuildView {
        BuildView {
            diagnostics: views(self.diagnostics@),
            raw_lines: texts(self.raw_lines@),
            build_done: self.build_done,
            build_success: self.build_success,
        }
    }
}

/// The line that is shown in place of output when the build does not start.
pub open spec fn spawn_error_text(error: Seq<char>) -> Seq<char> {
    "ERROR: Failed to spawn build: "@ + error
}

impl Build {
    /// A build that has just been started.
    pub fn new() -> (res: Build)
        ensures
            res@ == (BuildView {
                diagnostics: Seq::empty(),
                raw_lines: Seq::empty(),
                build_done: false,
                build_success: false,
            }),
            !res.build_done && !res.build_success,
            res.diagnostics@.len() == 0,
            res.raw_lines@.len() == 0,
    {
        let res = Build {
            diagnostics: Vec::new(),
            raw_lines: Vec::new(),
            build_done: false,
            build_success: false,
        };
        assert(res@.diagnostics =~= Seq::empty());
        assert(res@.raw_lines =~= Seq::empty());
        res
    }

    /// The build command could not be started.
    pub fn spawn_failed(&mut self, error: &str)
        ensures
            final(self)@ == (BuildView {
                raw_lines: old(self)@.raw_lines.push(spawn_error_text(error@)),
                build_done: true,
                ..old(self)@
            }),
            final(self).build_done,
            final(self).build_success == old(self).build_success,
            final(self).diagnostics == old(self).diagnostics,
            final(self).raw_lines@.len() == old(self).raw_lines@.len() + 1,
    {
        let mut line: String = "ERROR: Failed to spawn build: ".to_owned();
        line.append(error);
        proof {
            lemma_texts_push(self.raw_lines@, line);
        }
        self.raw_lines.push(line);
        self.build_done = true;
    }

    /// The build command has exited.
    pub fn finished(&mut self, success: bool)
        ensures
            final(self)@ == (BuildView {
                build_done: true,
                build_success: success,
                ..old(self)@
            }),
            final(self).build_done,
            final(self).build_success == success,
            final(self).diagnostics == old(self).diagnostics,
            final(self).raw_lines == old(self).raw_lines,
    {
        self.build_success = success;
        self.build_done = true;
    }

    pub open spec fn stream(self, last: Option<usize>) -> StreamView {
        StreamView { diagnostics: self@.diagnostics, last: place(last) }
    }
}

/// How far one output stream has been read.
pub struct Stream {
    /// The place of its last diagnostic.
    pub last: Option<usize>,
    /// Whether reading it has failed.
    pub ended: bool,
}

impl Stream {
    pub fn new() -> (res: Stream)
        ensures
            res == (Stream { last: None, ended: false }),
    {
        Stream { last: None, ended: false }
    }
}

/// Reading a line has failed somewhere in the batch.
pub open spec fn has_failure(reads: Seq<Option<String>>) -> bool {
    exists|i: int| 0 <= i < reads.len() && (#[trigger] reads[i]) is None
}

/// The lines that were read before the first failure.
pub open spec fn readable(reads: Seq<Option<String>>) -> Seq<Seq<char>>
    decreases reads.len(),
{
    if reads.len() == 0 || reads[0] is None {
        Seq::empty()
    } else {
        seq![reads[0]->0@] + readable(reads.skip(1))
    }
}

/// The lines of a batch that a stream takes in: none, once reading has failed.
pub open spec fn taken(stream: Stream, reads: Seq<Option<String>>) -> Seq<Seq<char>> {
    if stream.ended {
        Seq::empty()
    } else {
        readable(reads)
    }
}

/// Takes in one line of an output stream.
fn process_line(parser: &Parser, line: &String, last: Option<usize>, build: &mut Build) -> (res:
    Option<usize>)
    ensures
        final(build).stream(res) == stepped(
            old(build).stream(last),
            parsed_line(line@),
            line_text(line@),
        ),
        final(build)@.raw_lines == old(build)@.raw_lines.push(line@),
        final(build).build_done == old(build).build_done,
        final(build).build_success == old(build).build_success,
{
    let copy: String = line.clone();
    proof {
        lemma_texts_push(build.raw_lines@, copy);
    }
    build.raw_lines.push(copy);
    let parsed: Option<Diagnostic> = parser.parse_line(line.as_str());
    let clean = parser.strip_ansi(line.as_str());
    let text: &str = text_of(&clean).trim();
    record_line(&mut build.diagnostics, last, parsed, text)
}

/// Takes in what has been read of an output stream, up to the first failure.
pub fn process_stream_lines(
    parser: &Parser,
    reads: &Vec<Option<String>>,
    stream: &mut Stream,
    build: &mut Build,
)
    ensures
        final(build).stream(final(stream).last) == streamed(
            old(build).stream(old(stream).last),
            taken(*old(stream), reads@),
        ),
        final(stream).ended == (old(stream).ended || has_failure(reads@)),
        final(build)@.raw_lines == old(build)@.raw_lines + taken(*old(stream), reads@),
        final(build)@.build_done == old(build)@.build_done,
        final(build)@.build_success == old(build)@.build_success,
        old(build).raw_lines@.len() <= final(build).raw_lines@.len() <= old(build).raw_lines@.len()
            + reads@.len(),
        forall|i: int|
            0 <= i < old(build).raw_lines@.len() ==> (#[trigger] final(build).raw_lines@[i])@
                == old(build).raw_lines@[i]@,
        !old(stream).ended && (forall|i: int| 0 <= i < reads@.len() ==> (#[trigger] reads@[i])
            is Some) ==> {
            &&& final(build).raw_lines@.len() == old(build).raw_lines@.len() + reads@.len()
            &&& forall|i: int|
                0 <= i < reads@.len() ==> (#[trigger] final(build).raw_lines@[old(
                    build,
                ).raw_lines@.len() + i])@ == reads@[i]->0@
        },
        final(build).build_done == old(build).build_done,
        final(build).build_success == old(build).build_success,
{
    let ghost all = taken(*stream, reads@);
    let ghost mut done: Seq<Seq<char>> = Seq::empty();
    let mut k: usize = 0;
    assert(build@.raw_lines =~= old(build)@.raw_lines + done);
    assert(reads@.skip(0) =~= reads@);
    assert(all =~= done + taken(*stream, reads@.skip(0)));
    while k < reads.len() && !stream.ended
        invariant
            k <= reads.len(),
            all == taken(*old(stream), reads@),
            all == done + taken(*stream, reads@.skip(k as int)),
            stream.ended == (old(stream).ended || has_failure(reads@.take(k as int))),
            build.stream(stream.last) == streamed(old(build).stream(old(stream).last), done),
            build@.raw_lines == old(build)@.raw_lines + done,
            build.build_done == old(build).build_done,
            build.build_success == old(build).build_success,
        decreases reads.len() - k,
    {
        proof {
            lemma_failure_so_far(reads@, k as int);
            assert(reads@.skip(k as int)[0] == reads@[k as int]);
            assert(reads@.skip(k as int).skip(1) =~= reads@.skip(k + 1));
        }
        match &reads[k] {
            Some(line) => {
                stream.last = process_line(parser, line, stream.last, build);
                proof {
                    let before = done;
                    done = done.push(line@);
                    assert(done.drop_last() =~= before);
                    assert(build@.raw_lines =~= old(build)@.raw_lines + done);
                    assert(all =~= done + taken(*stream, reads@.skip(k + 1)));
                }
            },
            None => {
                stream.ended = true;
                assert(all =~= done + taken(*stream, reads@.skip(k + 1)));
            },
        }
        k = k + 1;
    }
    proof {
        assert(all =~= done);
        if k < reads.len() {
            if has_failure(reads@.take(k as int)) {
                let i = choose|i: int|
                    0 <= i < reads@.take(k as int).len() && (#[trigger] reads@.take(k as int)[i])
                        is None;
                assert(reads@[i] is None);
            }
        } else {
            assert(reads@.take(k as int) =~= reads@);
        }
        law_lines_before_failure_are_taken(*old(stream), reads@);
        let n = old(build).raw_lines@.len();
        assert(build.raw_lines@.len() == texts(build.raw_lines@).len());
        assert(texts(old(build).raw_lines@).len() == n);
        assert forall|i: int| 0 <= i < n implies (#[trigger] build.raw_lines@[i])@ == old(
            build,
        ).raw_lines@[i]@ by {
            assert(texts(build.raw_lines@)[i] == texts(old(build).raw_lines@)[i]);
        }
        if !old(stream).ended && (forall|i: int| 0 <= i < reads@.len() ==> (#[trigger] reads@[i])
            is Some) {
            assert forall|i: int| 0 <= i < reads@.len() implies (#[trigger] build.raw_lines@[n
                + i])@ == reads@[i]->0@ by {
                assert(texts(build.raw_lines@)[n + i] == all[i]);
            }
        }
    }
}

proof fn lemma_failure_so_far(reads: Seq<Option<String>>, k: int)
    requires
        0 <= k < reads.len(),
    ensures
        has_failure(reads.take(k + 1)) == (has_failure(reads.take(k)) || reads[k] is None),
{
    let longer = reads.take(k + 1);
    let shorter = reads.take(k);
    if has_failure(shorter) {
        let i = choose|i: int| 0 <= i < shorter.len() && (#[trigger] shorter[i]) is None;
        assert(longer[i] is None);
    }
    if reads[k] is None {
        assert(longer[k] is None);
    }
    if has_failure(longer) {
        let i = choose|i: int| 0 <= i < longer.len() && (#[trigger] longer[i]) is None;
        if i < k {
            assert(shorter[i] is None);
        }
    }
}

/// Lines may come in batches of any size.
pub proof fn law_batches_compose(state: StreamView, first: Seq<Seq<char>>, then: Seq<Seq<char>>)
    ensures
        streamed(state, first + then) == streamed(streamed(state, first), then),
    decreases then.len(),
{
    if then.len() == 0 {
        assert(first + then =~= first);
    } else {
        law_batches_compose(state, first, then.drop_last());
        assert((first + then).drop_last() =~= first + then.drop_last());
        assert((first + then).last() == then.last());
    }
}

/// No diagnostic has more context than the limit.
pub open spec fn within_limit(diagnostics: Seq<DiagnosticView>) -> bool {
    forall|i: int|
        0 <= i < diagnostics.len() ==> (#[trigger] diagnostics[i]).context.len() <= CONTEXT_LIMIT
}

/// A diagnostic never gets more than eight lines of context.
pub proof fn law_context_is_limited(state: StreamView, lines: Seq<Seq<char>>)
    requires
        within_limit(state.diagnostics),
    ensures
        within_limit(streamed(state, lines).diagnostics),
    decreases lines.len(),
{
    if lines.len() > 0 {
        law_context_is_limited(state, lines.drop_last());
        if parsed_line(lines.last()) is Some {
            assert(parsed_line(lines.last())->0.context.len() == 0);
        }
    }
}

/// The two agree but for the context, and that of `later` starts with that of
/// `earlier`.
pub open spec fn grown(earlier: DiagnosticView, later: DiagnosticView) -> bool {
    &&& later == DiagnosticView { context: later.context, ..earlier }
    &&& earlier.context.is_prefix_of(later.context)
}

/// `later` is what `earlier` has become while a build went on.
pub open spec fn continued(earlier: Seq<DiagnosticView>, later: Seq<DiagnosticView>) -> bool {
    &&& earlier.len() <= later.len()
    &&& forall|i: int| 0 <= i < earlier.len() ==> grown(earlier[i], #[trigger] later[i])
}

/// Diagnostics stay where they are and as they are, but for context that is
/// added behind theirs; and of the earlier ones only the stream's own last one
/// is given any.
pub proof fn law_diagnostics_stay(state: StreamView, lines: Seq<Seq<char>>)
    ensures
        continued(state.diagnostics, streamed(state, lines).diagnostics),
        forall|i: int|
            0 <= i < state.diagnostics.len() && state.last != Some(i as nat)
                ==> #[trigger] streamed(state, lines).diagnostics[i] == state.diagnostics[i],
        streamed(state, lines).last != state.last ==> (streamed(state, lines).last matches Some(i)
            && state.diagnostics.len() <= i < streamed(state, lines).diagnostics.len()),
    decreases lines.len(),
{
    if lines.len() > 0 {
        law_diagnostics_stay(state, lines.drop_last());
    }
}

/// How many of the lines are diagnostics.
pub open spec fn parsed_count(lines: Seq<Seq<char>>) -> nat
    decreases lines.len(),
{
    if lines.len() == 0 {
        0
    } else {
        parsed_count(lines.drop_last()) + if parsed_line(lines.last()) is Some {
            1nat
        } else {
            0
        }
    }
}

/// Every line that is a diagnostic adds one, and no other line does.
pub proof fn law_every_diagnostic_is_kept(state: StreamView, lines: Seq<Seq<char>>)
    ensures
        streamed(state, lines).diagnostics.len() == state.diagnostics.len() + parsed_count(lines),
    decreases lines.len(),
{
    if lines.len() > 0 {
        law_every_diagnostic_is_kept(state, lines.drop_last());
    }
}

/// The texts of the lines that are not blank.
pub open spec fn visible_texts(lines: Seq<Seq<char>>) -> Seq<Seq<char>>
    decreases lines.len(),
{
    if lines.len() == 0 {
        Seq::empty()
    } else if line_text(lines.last()).len() > 0 {
        visible_texts(lines.drop_last()).push(line_text(lines.last()))
    } else {
        visible_texts(lines.drop_last())
    }
}

/// The first lines, as many as a diagnostic keeps.
pub open spec fn limited(lines: Seq<Seq<char>>) -> Seq<Seq<char>> {
    if lines.len() <= CONTEXT_LIMIT {
        lines
    } else {
        lines.take(CONTEXT_LIMIT as int)
    }
}

/// The lines behind a diagnostic, up to the next one, are its context: those
/// that are not blank, and no more than the limit of them.
pub proof fn law_context_follows_diagnostic(
    state: StreamView,
    first: Seq<char>,
    lines: Seq<Seq<char>>,
)
    requires
        parsed_line(first) is Some,
        forall|i: int| 0 <= i < lines.len() ==> parsed_line(#[trigger] lines[i]) is None,
    ensures
        streamed(state, seq![first] + lines) == (StreamView {
            diagnostics: state.diagnostics.push(
                DiagnosticView {
                    context: limited(visible_texts(lines)),
                    ..parsed_line(first)->0
                },
            ),
            last: Some(state.diagnostics.len()),
        }),
    decreases lines.len(),
{
    let all = seq![first] + lines;
    let d = parsed_line(first)->0;
    if lines.len() == 0 {
        assert(all.drop_last() =~= Seq::empty());
        assert(streamed(state, all.drop_last()) == state);
        assert(all.last() == first);
        assert(d.context =~= limited(visible_texts(lines)));
    } else {
        law_context_follows_diagnostic(state, first, lines.drop_last());
        assert(all.drop_last() =~= seq![first] + lines.drop_last());
        assert(all.last() == lines.last());
        assert(parsed_line(lines[lines.len() - 1]) is None);
        let earlier = visible_texts(lines.drop_last());
        let text = line_text(lines.last());
        let before = streamed(state, all.drop_last()).diagnostics;
        let after = state.diagnostics.push(
            DiagnosticView { context: limited(visible_texts(lines)), ..d },
        );
        if text.len() > 0 {
            if earlier.len() < CONTEXT_LIMIT {
                assert(limited(visible_texts(lines)) =~= limited(earlier).push(text));
            } else {
                assert(limited(visible_texts(lines)) =~= limited(earlier));
            }
        }
        assert(streamed(state, all).diagnostics =~= after);
    }
}

/// The shell command of a build: it runs in the build directory.
pub open spec fn shell_text(build_dir: Seq<char>, build_cmd: Seq<char>) -> Seq<char> {
    "cd "@ + build_dir + " && "@ + build_cmd
}

/// What a build is run with.
pub struct Config {
    pub build_dir: String,
    pub build_cmd: String,
    pub log_path: String,
}

fn or_default(value: Option<String>, default: &str) -> (res: String)
    ensures
        res@ == (match value {
            Some(v) => v@,
            None => default@,
        }),
{
    match value {
        Some(v) => v,
        None => default.to_owned(),
    }
}

impl Config {
    /// Takes the settings that the environment holds, and the usual ones for
    /// the rest.
    pub fn from_vars(
        build_dir: Option<String>,
        build_cmd: Option<String>,
        log_path: Option<String>,
    ) -> (res: Config)
        ensures
            res.build_dir@ == (match build_dir {
                Some(v) => v@,
                None => "./build"@,
            }),
            res.build_cmd@ == (match build_cmd {
                Some(v) => v@,
                None => "cmake --build . -- -j 64"@,
            }),
            res.log_path@ == (match log_path {
                Some(v) => v@,
                None => "cpphxbuilder.log"@,
            }),
    {
        Config {
            build_dir: or_default(build_dir, "./build"),
            build_cmd: or_default(build_cmd, "cmake --build . -- -j 64"),
            log_path: or_default(log_path, "cpphxbuilder.log"),
        }
    }

    /// The command that the shell is given.
    pub fn shell_command(&self) -> (res: String)
        ensures
            res@ == shell_text(self.build_dir@, self.build_cmd@),
    {
        let mut res: String = "cd ".to_owned();
        res.append(self.build_dir.as_str());
        res.append(" && ");
        res.append(self.build_cmd.as_str());
        res
    }
}

/// The text of a line is all of it but escape sequences and the white space
/// around it, which is handed back.
pub proof fn law_text_of_line_is_whole(raw: Seq<char>) -> (cut: (Seq<char>, Seq<char>))
    ensures
        without_escapes(raw) == cut.0 + line_text(raw) + cut.1,
        forall|i: int| 0 <= i < cut.0.len() ==> white_space(#[trigger] cut.0[i]),
        forall|i: int| 0 <= i < cut.1.len() ==> white_space(#[trigger] cut.1[i]),
        line_text(raw).len() > 0 ==> !white_space(line_text(raw).first()) && !white_space(
            line_text(raw).last(),
        ),
{
    law_both_ends_are_trimmed(without_escapes(raw))
}

/// A line of any length without escape characters has its own text, without the
/// white space at both ends; it is blank only if it holds nothing else.
pub proof fn law_text_of_plain_line(lead: Seq<char>, text: Seq<char>, tail: Seq<char>)
    requires
        forall|i: int| 0 <= i < lead.len() ==> white_space(#[trigger] lead[i]),
        forall|i: int| 0 <= i < tail.len() ==> white_space(#[trigger] tail[i]),
        forall|i: int| 0 <= i < text.len() ==> #[trigger] text[i] != '\u{1b}',
        text.len() > 0 ==> !white_space(text.first()) && !white_space(text.last()),
    ensures
        line_text(lead + text + tail) == text,
{
    let raw = lead + text + tail;
    assert forall|i: int| 0 <= i < raw.len() implies #[trigger] raw[i] != '\u{1b}' by {
        if i < lead.len() {
            assert(white_space(lead[i]));
        } else if i < lead.len() + text.len() {
            assert(raw[i] == text[i - lead.len()]);
        } else {
            assert(white_space(tail[i - lead.len() - text.len()]));
        }
    }
    law_plain_text_is_kept(raw);
    law_trimming_undoes_indentation(lead, text, tail);
}

/// A line that holds anything but white space is not blank.
pub proof fn law_lines_with_text_are_not_blank(raw: Seq<char>, i: int)
    requires
        forall|j: int| 0 <= j < raw.len() ==> #[trigger] raw[j] != '\u{1b}',
        0 <= i < raw.len() && !white_space(raw[i]),
    ensures
        line_text(raw).len() > 0,
        line_text(raw).contains(raw[i]),
{
    law_plain_text_is_kept(raw);
    let cut = law_text_of_line_is_whole(raw);
    let k = i - cut.0.len();
    if i < cut.0.len() {
        assert(raw[i] == cut.0[i]);
    } else if k >= line_text(raw).len() {
        assert(raw[i] == cut.1[k - line_text(raw).len()]);
    } else {
        assert(line_text(raw)[k] == raw[i]);
    }
}

/// What one more line does, after any lines before it: a diagnostic is added
/// behind the others; a blank line changes nothing; any other line is added to
/// the context of the stream's last diagnostic as long as that has fewer than
/// eight lines, and changes nothing else.
pub proof fn law_next_line(state: StreamView, lines: Seq<Seq<char>>, raw: Seq<char>)
    ensures
        streamed(state, Seq::empty()) == state,
        ({
            let before = streamed(state, lines);
            let after = streamed(state, lines.push(raw));
            &&& parsed_line(raw) matches Some(d) ==> {
                &&& after.diagnostics == before.diagnostics.push(d)
                &&& after.last == Some(before.diagnostics.len())
            }
            &&& parsed_line(raw) is None ==> {
                &&& after.last == before.last
                &&& after.diagnostics.len() == before.diagnostics.len()
                &&& forall|j: int|
                    0 <= j < before.diagnostics.len() && before.last != Some(j as nat)
                        ==> #[trigger] after.diagnostics[j] == before.diagnostics[j]
            }
            &&& parsed_line(raw) is None && before.last is None ==> after == before
            &&& parsed_line(raw) is None && line_text(raw).len() == 0 ==> after == before
            &&& before.last matches Some(i) ==> parsed_line(raw) is None && i
                < before.diagnostics.len() ==> {
                let d = before.diagnostics[i as int];
                let e = after.diagnostics[i as int];
                &&& e.file == d.file && e.line == d.line && e.col == d.col
                &&& e.severity == d.severity && e.message == d.message
                &&& e.context == if line_text(raw).len() > 0 && d.context.len() < 8 {
                    d.context.push(line_text(raw))
                } else {
                    d.context
                }
            }
        }),
{
    assert(lines.push(raw).drop_last() =~= lines);
    assert(lines.push(raw).last() == raw);
}

/// An indented source line, however long, is added to the context of the
/// diagnostic before it as exactly its own text.
pub proof fn law_source_line_becomes_context(
    state: StreamView,
    lines: Seq<Seq<char>>,
    i: nat,
    lead: Seq<char>,
    text: Seq<char>,
    tail: Seq<char>,
)
    requires
        streamed(state, lines).last == Some(i),
        i < streamed(state, lines).diagnostics.len(),
        streamed(state, lines).diagnostics[i as int].context.len() < 8,
        forall|j: int| 0 <= j < lead.len() ==> white_space(#[trigger] lead[j]),
        forall|j: int| 0 <= j < tail.len() ==> white_space(#[trigger] tail[j]),
        forall|j: int| 0 <= j < text.len() ==> #[trigger] text[j] != '\u{1b}',
        text.len() > 0 && !white_space(text.first()) && !white_space(text.last()),
        parsed_line(lead + text + tail) is None,
    ensures
        streamed(state, lines.push(lead + text + tail)).diagnostics[i as int].context == streamed(
            state,
            lines,
        ).diagnostics[i as int].context.push(text),
{
    law_text_of_plain_line(lead, text, tail);
    law_next_line(state, lines, lead + text + tail);
}

/// Of a batch the lines before the first failed read are taken in, each as it
/// was read, and all of them; a stream that has ended takes in none.
pub proof fn law_lines_before_failure_are_taken(stream: Stream, reads: Seq<Option<String>>)
    ensures
        stream.ended ==> taken(stream, reads).len() == 0,
        taken(stream, reads).len() <= reads.len(),
        forall|i: int|
            #![trigger reads[i]]
            #![trigger taken(stream, reads)[i]]
            0 <= i < taken(stream, reads).len() ==> reads[i] is Some && taken(stream, reads)[i]
                == reads[i]->0@,
        !stream.ended ==> taken(stream, reads).len() == reads.len()
            || reads[taken(stream, reads).len() as int] is None,
        has_failure(reads) <==> !(forall|i: int|
            0 <= i < reads.len() ==> (#[trigger] reads[i]) is Some),
{
    if !stream.ended {
        lemma_readable(reads);
    }
    if has_failure(reads) {
        let i = choose|i: int| 0 <= i < reads.len() && (#[trigger] reads[i]) is None;
        assert(!(reads[i] is Some));
    }
}

proof fn lemma_readable(reads: Seq<Option<String>>)
    ensures
        readable(reads).len() <= reads.len(),
        forall|i: int|
            #![trigger reads[i]]
            #![trigger readable(reads)[i]]
            0 <= i < readable(reads).len() ==> reads[i] is Some && readable(reads)[i]
                == reads[i]->0@,
        readable(reads).len() == reads.len() || reads[readable(reads).len() as int] is None,
    decreases reads.len(),
{
    if reads.len() > 0 && reads[0] is Some {
        let rest = reads.skip(1);
        lemma_readable(rest);
        assert forall|i: int|
            #![trigger reads[i]]
            #![trigger readable(reads)[i]]
            0 <= i < readable(reads).len() implies reads[i] is Some && readable(reads)[i]
            == reads[i]->0@ by {
            if i > 0 {
                assert(readable(reads)[i] == readable(rest)[i - 1]);
                assert(rest[i - 1] == reads[i]);
            }
        }
        if readable(rest).len() < rest.len() {
            assert(rest[readable(rest).len() as int] == reads[readable(reads).len() as int]);
        }
    }
}

/// The view of a build holds all of it, and so does the view of one of its
/// streams.
pub proof fn law_build_view_is_whole(build: Build, last: Option<usize>)
    ensures
        build@.build_done == build.build_done,
        build@.build_success == build.build_success,
        build@.raw_lines.len() == build.raw_lines@.len(),
        forall|i: int|
            0 <= i < build.raw_lines@.len() ==> #[trigger] build@.raw_lines[i]
                == build.raw_lines@[i]@,
        build@.diagnostics.len() == build.diagnostics@.len(),
        forall|i: int|
            0 <= i < build.diagnostics@.len() ==> #[trigger] build@.diagnostics[i]
                == build.diagnostics@[i]@,
        build.stream(last).diagnostics == build@.diagnostics,
        build.stream(last).last is None <==> last is None,
        last matches Some(i) ==> build.stream(last).last == Some(i as nat),
{
}

/// The shell changes into the directory first, and runs the command, as it is
/// written, only then.
pub proof fn law_command_runs_in_directory(build_dir: Seq<char>, build_cmd: Seq<char>)
    ensures
        ("cd "@ + build_dir).is_prefix_of(shell_text(build_dir, build_cmd)),
        (" && "@ + build_cmd).is_suffix_of(shell_text(build_dir, build_cmd)),
        shell_text(build_dir, build_cmd).len() == build_dir.len() + build_cmd.len() + 7,
{
    reveal_strlit("cd ");
    reveal_strlit(" && ");
    let all = shell_text(build_dir, build_cmd);
    let tail = " && "@ + build_cmd;
    assert(all =~= ("cd "@ + build_dir) + tail);
    assert(all.skip(all.len() - tail.len()) =~= tail);
}

/// The line about a build that does not start ends in the reason, all of it.
pub proof fn law_reason_is_shown(error: Seq<char>)
    ensures
        error.is_suffix_of(spawn_error_text(error)),
        spawn_error_text(error).len() == "ERROR: Failed to spawn build: "@.len() + error.len(),
        "ERROR: Failed to spawn build: "@.is_prefix_of(spawn_error_text(error)),
{
    let all = spawn_error_text(error);
    assert(all.skip(all.len() - error.len()) =~= error);
}

} // verus!
