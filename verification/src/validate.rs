//! The pairing rules: a list of functions is opened and closed in turn, never
//! opened twice, never closed unopened, and never left open.

use crate::directive::{Directive, DirectiveView};
use crate::error::ParseError;
use vstd::prelude::*;

verus! {

/// Where a pass over the directives of one file stands.
#[derive(Clone, Copy, Debug, PartialEq, Eq, Structural)]
pub enum ParseState {
    /// No list is open.
    Start,
    /// A list is open.
    DefinedInBegin,
}

/// A stream of directives that was refused: why, and at which directive,
/// counted from 0. A stream that ends inside a list is refused at its length.
#[derive(Clone, Copy, Debug, PartialEq, Eq, Structural)]
pub struct Rejection {
    pub error: ParseError,
    pub position: usize,
}

/// One step: the state after `directive` and whether `directive` is kept.
pub open spec fn spec_transition(state: ParseState, directive: DirectiveView) -> Result<
    (ParseState, bool),
    ParseError,
> {
    match (state, directive) {
        (ParseState::Start, DirectiveView::DefinedInList { .. }) => Ok(
            (ParseState::DefinedInBegin, true),
        ),
        (ParseState::Start, DirectiveView::DefinedInEnd) => Err(ParseError::UnmatchedDefinedInEnd),
        (ParseState::DefinedInBegin, DirectiveView::DefinedInList { .. }) => Err(
            ParseError::NestedDefinedInStart,
        ),
        (ParseState::DefinedInBegin, DirectiveView::DefinedInEnd) => Ok((ParseState::Start, false)),
        _ => Ok((state, true)),
    }
}

/// The pass over `directives` from the state `Start`: the state it ends in
/// and the directives kept, or the first refusal.
pub open spec fn spec_run(directives: Seq<DirectiveView>) -> Result<
    (ParseState, Seq<DirectiveView>),
    Rejection,
>
    decreases directives.len(),
{
    if directives.len() == 0 {
        Ok((ParseState::Start, Seq::empty()))
    } else {
        match spec_run(directives.drop_last()) {
            Err(rejection) => Err(rejection),
            Ok((state, kept)) => match spec_transition(state, directives.last()) {
                Err(error) => Err(
                    Rejection { error, position: (directives.len() - 1) as usize },
                ),
                Ok((next, keep)) => Ok(
                    (
                        next,
                        if keep {
                            kept.push(directives.last())
                        } else {
                            kept
                        },
                    ),
                ),
            },
        }
    }
}

/// The directives of a valid stream without the ends of its lists; a stream
/// that the pass refuses, or that it does not end in `Start`, is refused.
pub open spec fn spec_parse_directives(directives: Seq<DirectiveView>) -> Result<
    Seq<DirectiveView>,
    Rejection,
> {
    match spec_run(directives) {
        Err(rejection) => Err(rejection),
        Ok((ParseState::Start, kept)) => Ok(kept),
        Ok((ParseState::DefinedInBegin, _)) => Err(
            Rejection {
                error: ParseError::UnclosedDefinedInStart,
                position: directives.len() as usize,
            },
        ),
    }
}

/// The directives of `directives` that are not the end of a list.
pub open spec fn without_ends(directives: Seq<DirectiveView>) -> Seq<DirectiveView> {
    directives.filter(|d: DirectiveView| !(d is DefinedInEnd))
}

/// Whatever a pass keeps is what it read, without the ends of lists.
pub proof fn lemma_run_keeps(directives: Seq<DirectiveView>)
    ensures
        spec_run(directives) matches Ok((_, kept)) ==> kept == without_ends(directives),
    decreases directives.len(),
{
    reveal(Seq::filter);
    if directives.len() > 0 {
        lemma_run_keeps(directives.drop_last());
        assert(directives.drop_last().push(directives.last()) =~= directives);
    }
}

/// The one step of the pass.
pub fn transition(state: ParseState, directive: &Directive) -> (r: Result<
    (ParseState, bool),
    ParseError,
>)
    ensures
        r == spec_transition(state, directive.deep_view()),
{
    match directive {
        Directive::DefinedInList { .. } => match state {
            ParseState::Start => Ok((ParseState::DefinedInBegin, true)),
            ParseState::DefinedInBegin => Err(ParseError::NestedDefinedInStart),
        },
        Directive::DefinedInEnd => match state {
            ParseState::Start => Err(ParseError::UnmatchedDefinedInEnd),
            ParseState::DefinedInBegin => Ok((ParseState::Start, false)),
        },
        _ => Ok((state, true)),
    }
}

/// A pass in progress: the directives read so far were accepted.
pub struct Validator {
    state: ParseState,
    kept: Vec<Directive>,
    seen: Ghost<Seq<DirectiveView>>,
}

impl Validator {
    /// The directives read so far.
    pub closed spec fn seen(&self) -> Seq<DirectiveView> {
        self.seen@
    }

    /// The state of the pass.
    pub closed spec fn state(&self) -> ParseState {
        self.state
    }

    /// The directives kept so far.
    pub closed spec fn kept(&self) -> Seq<DirectiveView> {
        self.kept.deep_view()
    }

    /// The pass stands where the directives read so far lead.
    pub open spec fn wf(&self) -> bool {
        spec_run(self.seen()) == Ok::<_, Rejection>((self.state(), self.kept()))
    }

    /// A pass that has read nothing.
    pub fn new() -> (validator: Validator)
        ensures
            validator.wf(),
            validator.seen() == Seq::<DirectiveView>::empty(),
    {
        let kept: Vec<Directive> = Vec::new();
        assert(kept.deep_view() =~= Seq::empty());
        Validator { state: ParseState::Start, kept, seen: Ghost(Seq::empty()) }
    }

    /// Reads one more directive. A refusal leaves the pass as it was.
    pub fn accept(&mut self, directive: Directive) -> (r: Result<(), ParseError>)
        requires
            old(self).wf(),
        ensures
            final(self).wf(),
            match r {
                Ok(()) => final(self).seen() == old(self).seen().push(directive.deep_view())
                    && spec_transition(old(self).state(), directive.deep_view()) is Ok,
                Err(error) => final(self).seen() == old(self).seen() && spec_transition(
                    old(self).state(),
                    directive.deep_view(),
                ) == Err::<(ParseState, bool), _>(error) && final(self).state() == old(
                    self,
                ).state() && final(self).kept() == old(self).kept(),
            },
    {
        let ghost before = self.seen@;
        let ghost kept = self.kept.deep_view();
        let ghost view = directive.deep_view();
        match transition(self.state, &directive) {
            Err(error) => Err(error),
            Ok((next, keep)) => {
                proof {
                    assert(before.push(view).drop_last() =~= before);
                }
                self.state = next;
                if keep {
                    self.kept.push(directive);
                    assert(self.kept.deep_view() =~= kept.push(view));
                }
                self.seen = Ghost(before.push(view));
                Ok(())
            },
        }
    }

    /// Ends the pass: the directives kept, where no list is left open.
    pub fn finish(self) -> (r: Result<Vec<Directive>, ParseError>)
        requires
            self.wf(),
        ensures
            match r {
                Ok(kept) => self.state() == ParseState::Start && spec_parse_directives(self.seen())
                    == Ok::<_, Rejection>(kept.deep_view()),
                Err(error) => self.state() == ParseState::DefinedInBegin && error
                    == ParseError::UnclosedDefinedInStart && spec_parse_directives(self.seen())
                    is Err,
            },
    {
        match self.state {
            ParseState::Start => Ok(self.kept),
            ParseState::DefinedInBegin => Err(ParseError::UnclosedDefinedInStart),
        }
    }
}

/// Checks the pairing of lists in `directives` and gives back the directives
/// without the ends of lists. A stream is accepted only where the pass ends
/// in the state `Start`.
pub fn parse_directives(directives: Vec<Directive>) -> (r: Result<Vec<Directive>, Rejection>)
    ensures
        match r {
            Ok(kept) => spec_parse_directives(directives.deep_view()) == Ok::<_, Rejection>(
                kept.deep_view(),
            ),
            Err(rejection) => spec_parse_directives(directives.deep_view()) == Err::<
                Seq<DirectiveView>,
                _,
            >(rejection),
        },
        r is Ok ==> (spec_run(directives.deep_view()) matches Ok((state, _)) && state
            == ParseState::Start),
        r matches Ok(kept) ==> kept.deep_view() == without_ends(directives.deep_view()),
{
    let ghost all = directives.deep_view();
    let n = directives.len();
    let mut validator = Validator::new();
    let mut position: usize = 0;
    proof {
        assert(all.take(0) =~= Seq::empty());
        lemma_run_keeps(all);
    }
    for directive in it: directives
        invariant
            validator.wf(),
            position == it.index(),
            it.seq().len() == n,
            all.len() == n,
            forall|k: int| 0 <= k < n ==> (#[trigger] it.seq()[k]).deep_view() == all[k],
            validator.seen() == all.take(position as int),
            all == directives.deep_view(),
    {
        proof {
            assert(all.take(position + 1) =~= all.take(position as int).push(
                directive.deep_view(),
            ));
            assert(all.take(position + 1).drop_last() =~= all.take(position as int));
        }
        match validator.accept(directive) {
            Ok(()) => {},
            Err(error) => {
                proof {
                    assert(spec_run(all.take(position + 1)) == Err::<
                        (ParseState, Seq<DirectiveView>),
                        _,
                    >(Rejection { error, position }));
                    lemma_run_refused(all, position as int);
                }
                return Err(Rejection { error, position });
            },
        }
        position += 1;
    }
    proof {
        assert(all.take(position as int) =~= all);
    }
    match validator.finish() {
        Ok(kept) => Ok(kept),
        Err(error) => Err(Rejection { error, position }),
    }
}

/// A pass that is refused at one directive is refused there however the
/// stream goes on.
pub proof fn lemma_run_refused(directives: Seq<DirectiveView>, position: int)
    requires
        0 <= position < directives.len(),
        spec_run(directives.take(position + 1)) is Err,
    ensures
        spec_run(directives) == spec_run(directives.take(position + 1)),
    decreases directives.len(),
{
    if position + 1 == directives.len() {
        assert(directives.take(position + 1) =~= directives);
    } else {
        assert(directives.drop_last().take(position + 1) =~= directives.take(position + 1));
        lemma_run_refused(directives.drop_last(), position);
    }
}

} // verus!
