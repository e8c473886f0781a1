//! Two output streams of one build, whose lines come in any order.

use crate::ansi::without_escapes;
use crate::diagnostic::DiagnosticView;
use crate::parser::parsed_line;
use crate::runner::{
    line_text, place, readable, stepped, streamed, taken, with_context, within_limit, Build, Stream,
    StreamView,
};
use crate::text::{is_trimmed, law_trimmed_text_is_trimmed};
use vstd::prelude::*;

verus! {

pub enum Source {
    Stdout,
    Stderr,
}

/// A line, and the stream that it came from.
pub struct Arrival {
    pub source: Source,
    pub line: Seq<char>,
}

/// A build that two streams feed: the lines of both, the diagnostics, where each
/// came from, and the place of the last one of each stream.
pub struct SharedView {
    pub raw_lines: Seq<Seq<char>>,
    pub diagnostics: Seq<DiagnosticView>,
    pub sources: Seq<Source>,
    pub last_stdout: Option<nat>,
    pub last_stderr: Option<nat>,
}

impl SharedView {
    /// Before the first line.
    pub open spec fn start() -> SharedView {
        SharedView {
            raw_lines: Seq::empty(),
            diagnostics: Seq::empty(),
            sources: Seq::empty(),
            last_stdout: None,
            last_stderr: None,
        }
    }

    pub open spec fn last(self, source: Source) -> Option<nat> {
        match source {
            Source::Stdout => self.last_stdout,
            Source::Stderr => self.last_stderr,
        }
    }

    /// The build as one of the streams finds it.
    pub open spec fn seen_by(self, source: Source) -> StreamView {
        StreamView { diagnostics: self.diagnostics, last: self.last(source) }
    }

    /// The build after a line of one stream.
    pub open spec fn after(self, arrival: Arrival) -> SharedView {
        let next = stepped(
            self.seen_by(arrival.source),
            parsed_line(arrival.line),
            line_text(arrival.line),
        );
        SharedView {
            raw_lines: self.raw_lines.push(arrival.line),
            diagnostics: next.diagnostics,
            sources: if parsed_line(arrival.line) is Some {
                self.sources.push(arrival.source)
            } else {
                self.sources
            },
            last_stdout: if arrival.source == Source::Stdout {
                next.last
            } else {
                self.last_stdout
            },
            last_stderr: if arrival.source == Source::Stderr {
                next.last
            } else {
                self.last_stderr
            },
        }
    }
}

/// The build after all lines of both streams, in the order in which they came.
pub open spec fn shared(arrivals: Seq<Arrival>) -> SharedView
    decreases arrivals.len(),
{
    if arrivals.len() == 0 {
        SharedView::start()
    } else {
        shared(arrivals.drop_last()).after(arrivals.last())
    }
}

/// The lines of one stream.
pub open spec fn lines_of(arrivals: Seq<Arrival>, source: Source) -> Seq<Seq<char>>
    decreases arrivals.len(),
{
    if arrivals.len() == 0 {
        Seq::empty()
    } else if arrivals.last().source == source {
        lines_of(arrivals.drop_last(), source).push(arrivals.last().line)
    } else {
        lines_of(arrivals.drop_last(), source)
    }
}

/// The diagnostics that came from one stream.
pub open spec fn diagnostics_of(
    diagnostics: Seq<DiagnosticView>,
    sources: Seq<Source>,
    source: Source,
) -> Seq<DiagnosticView>
    decreases diagnostics.len(),
{
    if diagnostics.len() == 0 || sources.len() == 0 {
        Seq::empty()
    } else if sources.last() == source {
        diagnostics_of(diagnostics.drop_last(), sources.drop_last(), source).push(
            diagnostics.last(),
        )
    } else {
        diagnostics_of(diagnostics.drop_last(), sources.drop_last(), source)
    }
}

/// Lines of one stream, as they arrive one after the other.
pub open spec fn batch(source: Source, lines: Seq<Seq<char>>) -> Seq<Arrival> {
    lines.map_values(|line: Seq<char>| Arrival { source, line })
}

/// `build` and how far its two streams have been read are what the lines that
/// have arrived lead to.
pub open spec fn is_fed(
    build: Build,
    stdout: Stream,
    stderr: Stream,
    arrivals: Seq<Arrival>,
) -> bool {
    &&& build@.raw_lines == shared(arrivals).raw_lines
    &&& build@.diagnostics == shared(arrivals).diagnostics
    &&& place(stdout.last) == shared(arrivals).last_stdout
    &&& place(stderr.last) == shared(arrivals).last_stderr
}

proof fn lemma_batch(arrivals: Seq<Arrival>, source: Source, lines: Seq<Seq<char>>)
    ensures
        ({
            let before = shared(arrivals);
            let after = shared(arrivals + batch(source, lines));
            &&& after.raw_lines == before.raw_lines + lines
            &&& after.seen_by(source) == streamed(before.seen_by(source), lines)
            &&& source == Source::Stdout ==> after.last_stderr == before.last_stderr
            &&& source == Source::Stderr ==> after.last_stdout == before.last_stdout
        }),
    decreases lines.len(),
{
    let before = shared(arrivals);
    let all = arrivals + batch(source, lines);
    if lines.len() == 0 {
        assert(all =~= arrivals);
        assert(before.raw_lines + lines =~= before.raw_lines);
    } else {
        lemma_batch(arrivals, source, lines.drop_last());
        assert(all.drop_last() =~= arrivals + batch(source, lines.drop_last()));
        assert(all.last() == Arrival { source, line: lines.last() });
        assert(shared(all).raw_lines =~= before.raw_lines + lines);
    }
}

/// A build that has just been started has been fed nothing.
pub proof fn law_new_build_is_fed(build: Build, stdout: Stream, stderr: Stream)
    requires
        build@.raw_lines == Seq::<Seq<char>>::empty(),
        build@.diagnostics == Seq::<DiagnosticView>::empty(),
        stdout.last is None,
        stderr.last is None,
    ensures
        is_fed(build, stdout, stderr, Seq::empty()),
{
}

/// What the standard output brings is added to what has arrived: a build that
/// takes it in as `process_stream_lines` does stays what all lines lead to.
pub proof fn law_stdout_is_fed(
    arrivals: Seq<Arrival>,
    before: Build,
    after: Build,
    stdout: Stream,
    stderr: Stream,
    reads: Seq<Option<String>>,
    next: Stream,
)
    requires
        is_fed(before, stdout, stderr, arrivals),
        after.stream(next.last) == streamed(before.stream(stdout.last), taken(stdout, reads)),
        after@.raw_lines == before@.raw_lines + taken(stdout, reads),
    ensures
        is_fed(after, next, stderr, arrivals + batch(Source::Stdout, taken(stdout, reads))),
{
    lemma_batch(arrivals, Source::Stdout, taken(stdout, reads));
}

/// The same of the standard error.
pub proof fn law_stderr_is_fed(
    arrivals: Seq<Arrival>,
    before: Build,
    after: Build,
    stdout: Stream,
    stderr: Stream,
    reads: Seq<Option<String>>,
    next: Stream,
)
    requires
        is_fed(before, stdout, stderr, arrivals),
        after.stream(next.last) == streamed(before.stream(stderr.last), taken(stderr, reads)),
        after@.raw_lines == before@.raw_lines + taken(stderr, reads),
    ensures
        is_fed(after, stdout, next, arrivals + batch(Source::Stderr, taken(stderr, reads))),
{
    lemma_batch(arrivals, Source::Stderr, taken(stderr, reads));
}

/// One line takes a build from what has arrived to what has arrived with it.
pub proof fn law_one_line_is_pushed(
    arrivals: Seq<Arrival>,
    source: Source,
    stream: Stream,
    line: String,
)
    requires
        !stream.ended,
    ensures
        arrivals + batch(source, taken(stream, seq![Some(line)])) == arrivals.push(
            Arrival { source, line: line@ },
        ),
{
    let reads = seq![Some(line)];
    assert(reads.skip(1) =~= Seq::empty());
    assert(readable(reads.skip(1)) =~= Seq::empty());
    assert(readable(reads) =~= seq![line@]);
    assert(arrivals + batch(source, seq![line@]) =~= arrivals.push(
        Arrival { source, line: line@ },
    ));
}

/// Two streams together never give a diagnostic more than eight lines of
/// context.
pub proof fn law_shared_context_is_limited(arrivals: Seq<Arrival>)
    ensures
        within_limit(shared(arrivals).diagnostics),
    decreases arrivals.len(),
{
    if arrivals.len() > 0 {
        law_shared_context_is_limited(arrivals.drop_last());
        let line = arrivals.last().line;
        if parsed_line(line) is Some {
            assert(parsed_line(line)->0.context.len() == 0);
        }
    }
}

/// No line of context is blank, and none has white space at either end.
pub open spec fn context_is_trimmed(diagnostics: Seq<DiagnosticView>) -> bool {
    forall|i: int, j: int|
        0 <= i < diagnostics.len() && 0 <= j < diagnostics[i].context.len() ==> is_trimmed(
            #[trigger] diagnostics[i].context[j],
        )
}

/// The context of a diagnostic is trimmed text, line by line.
pub proof fn law_context_is_trimmed(arrivals: Seq<Arrival>)
    ensures
        context_is_trimmed(shared(arrivals).diagnostics),
    decreases arrivals.len(),
{
    if arrivals.len() > 0 {
        law_context_is_trimmed(arrivals.drop_last());
        let before = shared(arrivals.drop_last()).diagnostics;
        let after = shared(arrivals).diagnostics;
        let line = arrivals.last().line;
        law_trimmed_text_is_trimmed(without_escapes(line));
        assert forall|i: int, j: int|
            0 <= i < after.len() && 0 <= j < after[i].context.len() implies is_trimmed(
            #[trigger] after[i].context[j],
        ) by {
            if i < before.len() && j < before[i].context.len() {
                assert(is_trimmed(before[i].context[j]));
            }
        }
    }
}

/// `i` is the place of the last diagnostic of `source`.
spec fn is_last_of(sources: Seq<Source>, source: Source, i: int) -> bool {
    &&& 0 <= i < sources.len()
    &&& sources[i] == source
    &&& forall|j: int| i < j < sources.len() ==> #[trigger] sources[j] != source
}

/// Changing the last diagnostic of one stream changes that one, and nothing of
/// the other stream.
proof fn lemma_update_last(
    diagnostics: Seq<DiagnosticView>,
    sources: Seq<Source>,
    source: Source,
    other: Source,
    i: int,
    d: DiagnosticView,
)
    requires
        other != source,
        diagnostics.len() == sources.len(),
        is_last_of(sources, source, i),
    ensures
        ({
            let before = diagnostics_of(diagnostics, sources, source);
            &&& before.len() > 0
            &&& before.last() == diagnostics[i]
            &&& diagnostics_of(diagnostics.update(i, d), sources, source) == before.update(
                before.len() - 1,
                d,
            )
        }),
        diagnostics_of(diagnostics.update(i, d), sources, other) == diagnostics_of(
            diagnostics,
            sources,
            other,
        ),
    decreases diagnostics.len(),
{
    let after = diagnostics.update(i, d);
    let n = diagnostics.len() - 1;
    if i == n {
        assert(after.drop_last() =~= diagnostics.drop_last());
        let before = diagnostics_of(diagnostics, sources, source);
        assert(diagnostics_of(after, sources, source) =~= before.update(before.len() - 1, d));
    } else {
        assert(after.drop_last() =~= diagnostics.drop_last().update(i, d));
        assert(sources[n] != source);
        assert forall|j: int| i < j < sources.drop_last().len() implies #[trigger]
            sources.drop_last()[j] != source by {
            assert(sources.drop_last()[j] == sources[j]);
        }
        lemma_update_last(diagnostics.drop_last(), sources.drop_last(), source, other, i, d);
        assert(after.last() == diagnostics.last());
    }
}

/// What is kept while lines come in.
spec fn is_apart(state: SharedView, source: Source, alone: StreamView) -> bool {
    let own = diagnostics_of(state.diagnostics, state.sources, source);
    &&& own == alone.diagnostics
    &&& match (state.last(source), alone.last) {
        (Some(i), Some(k)) => is_last_of(state.sources, source, i as int) && k + 1 == own.len(),
        (None, None) => forall|j: int|
            0 <= j < state.sources.len() ==> #[trigger] state.sources[j] != source,
        _ => false,
    }
}

proof fn lemma_is_apart(arrivals: Seq<Arrival>, source: Source)
    ensures
        shared(arrivals).diagnostics.len() == shared(arrivals).sources.len(),
        is_apart(
            shared(arrivals),
            source,
            streamed(
                StreamView { diagnostics: Seq::empty(), last: None },
                lines_of(arrivals, source),
            ),
        ),
    decreases arrivals.len(),
{
    let start = StreamView { diagnostics: Seq::empty(), last: None };
    if arrivals.len() > 0 {
        lemma_is_apart(arrivals.drop_last(), source);
        let before = shared(arrivals.drop_last());
        let after = shared(arrivals);
        let from = arrivals.last().source;
        let line = arrivals.last().line;
        lemma_is_apart(arrivals.drop_last(), from);
        let alone_before = streamed(start, lines_of(arrivals.drop_last(), source));
        let alone = streamed(start, lines_of(arrivals, source));
        if from == source {
            assert(lines_of(arrivals, source).drop_last() =~= lines_of(
                arrivals.drop_last(),
                source,
            ));
            assert(alone == stepped(alone_before, parsed_line(line), line_text(line)));
        } else {
            assert(alone == alone_before);
        }
        match parsed_line(line) {
            Some(d) => {
                assert(after.diagnostics.drop_last() =~= before.diagnostics);
                assert(after.sources.drop_last() =~= before.sources);
            },
            None => {
                if line_text(line).len() > 0 {
                    if let Some(i) = before.last(from) {
                        let grown = with_context(before.diagnostics[i as int], line_text(line));
                        lemma_update_last(
                            before.diagnostics,
                            before.sources,
                            from,
                            if from == Source::Stdout {
                                Source::Stderr
                            } else {
                                Source::Stdout
                            },
                            i as int,
                            grown,
                        );
                    }
                }
            },
        }
    }
}

/// However the lines of the two streams mix, each stream leads to the same
/// diagnostics, with the same context, as if it had been alone.
pub proof fn law_streams_do_not_mix(arrivals: Seq<Arrival>, source: Source)
    ensures
        diagnostics_of(shared(arrivals).diagnostics, shared(arrivals).sources, source) == streamed(
            StreamView { diagnostics: Seq::empty(), last: None },
            lines_of(arrivals, source),
        ).diagnostics,
{
    lemma_is_apart(arrivals, source);
}

} // verus!
