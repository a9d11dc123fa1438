//! Stages and their composition: a chain runs its stages in order on the
//! same requests and hands back their files one after another, or the error
//! of the first stage that fails.

use crate::base::{contents_view, lemma_base_files_are_enveloped, CoreProstGenerator};
use crate::generator::{lemma_route_files_are_marked, AxumConnectGenerator};
use crate::request::{
    ends_with_insertion_point, file_views, outcome_view, starts_with_marker, ErrorView, FileView,
    GenerateError, GeneratedFile, ModuleRequestSet,
};
use crate::serde_gen::{
    lemma_serde_files_are_marked_fragments, outputs_view, AxumConnectSerdeGenerator,
};
use vstd::prelude::*;

verus! {

/// A stage of generation, or two generators run one after the other.
pub enum Generator {
    Base(CoreProstGenerator),
    Route(AxumConnectGenerator),
    Serde(AxumConnectSerdeGenerator),
    Chained(Box<Generator>, Box<Generator>),
}

/// The outcome of running one generator and then another: the files of both
/// in that order, or the error of the first that failed. Nothing of the
/// first is kept where the second fails.
pub open spec fn chained(
    first: Result<Seq<FileView>, ErrorView>,
    second: Result<Seq<FileView>, ErrorView>,
) -> Result<Seq<FileView>, ErrorView> {
    match first {
        Err(error) => Err(error),
        Ok(files) => match second {
            Err(error) => Err(error),
            Ok(more) => Ok(files + more),
        },
    }
}

impl Generator {
    /// What the generator hands back for `set`.
    pub open spec fn output(&self, set: ModuleRequestSet) -> Result<Seq<FileView>, ErrorView>
        decreases self,
    {
        match self {
            Generator::Base(stage) => stage.output(set),
            Generator::Route(stage) => stage.output(set),
            Generator::Serde(stage) => stage.output(set),
            Generator::Chained(first, second) => chained(first.output(set), second.output(set)),
        }
    }

    /// Whether the generator holds a route stage.
    pub open spec fn holds_route(&self) -> bool
        decreases self,
    {
        match self {
            Generator::Base(_) => false,
            Generator::Route(_) => true,
            Generator::Serde(_) => false,
            Generator::Chained(first, second) => first.holds_route() || second.holds_route(),
        }
    }

    /// The generator that runs `self` and then `next`.
    pub fn chain(self, next: Generator) -> (both: Generator)
        ensures
            both == Generator::Chained(Box::new(self), Box::new(next)),
    {
        Generator::Chained(Box::new(self), Box::new(next))
    }

    /// Runs the generator on `set`. A chain stops at the first stage that
    /// fails and does not run the stages after it. Only the route stage asks
    /// anything of the requests.
    pub fn generate(&self, set: &ModuleRequestSet) -> (out: Result<Vec<GeneratedFile>, GenerateError>)
        requires
            self.holds_route() ==> set.well_formed(),
        ensures
            outcome_view(out) == self.output(*set),
        decreases self,
    {
        match self {
            Generator::Base(stage) => stage.generate(set),
            Generator::Route(stage) => stage.generate(set),
            Generator::Serde(stage) => stage.generate(set),
            Generator::Chained(first, second) => {
                let mut files = match first.generate(set) {
                    Ok(files) => files,
                    Err(error) => {
                        return Err(error);
                    },
                };
                let mut more = match second.generate(set) {
                    Ok(more) => more,
                    Err(error) => {
                        return Err(error);
                    },
                };
                let ghost head = files@;
                let ghost tail = more@;
                files.append(&mut more);
                assert(file_views(files@) =~= file_views(head) + file_views(tail));
                Ok(files)
            },
        }
    }
}

/// A chain hands back what its two parts hand back, the first part's files
/// before the second's. Where the first part fails the chain fails with
/// the first part's error, whatever the second would do; where only the
/// second fails the chain fails with the second's error and hands back
/// none of the first part's files.
pub proof fn lemma_chain_runs_in_order(first: Generator, second: Generator, set: ModuleRequestSet)
    ensures
        Generator::Chained(Box::new(first), Box::new(second)).output(set) == chained(
            first.output(set),
            second.output(set),
        ),
        first.output(set) is Err ==> Generator::Chained(Box::new(first), Box::new(second)).output(
            set,
        ) == first.output(set),
        first.output(set) is Ok && second.output(set) is Err ==> Generator::Chained(
            Box::new(first),
            Box::new(second),
        ).output(set) == second.output(set),
        first.output(set) is Ok && second.output(set) is Ok ==> Generator::Chained(
            Box::new(first),
            Box::new(second),
        ).output(set) == Ok::<Seq<FileView>, ErrorView>(
            first.output(set)->Ok_0 + second.output(set)->Ok_0,
        ),
{
    reveal_with_fuel(Generator::output, 2);
}

/// Chaining is associative: three generators hand back the same, however
/// they are grouped.
pub proof fn lemma_chain_is_associative(
    first: Generator,
    second: Generator,
    third: Generator,
    set: ModuleRequestSet,
)
    ensures
        Generator::Chained(
            Box::new(Generator::Chained(Box::new(first), Box::new(second))),
            Box::new(third),
        ).output(set) == Generator::Chained(
            Box::new(first),
            Box::new(Generator::Chained(Box::new(second), Box::new(third))),
        ).output(set),
{
    reveal_with_fuel(Generator::output, 3);
    let a = first.output(set);
    let b = second.output(set);
    let c = third.output(set);
    if a is Ok && b is Ok && c is Ok {
        assert((a->Ok_0 + b->Ok_0) + c->Ok_0 =~= a->Ok_0 + (b->Ok_0 + c->Ok_0));
    }
}

/// Generation is repeatable: what a generator hands back depends on the
/// generator and the requests alone, so two runs on the same requests hand
/// back the same files with the same content, or the same error.
pub proof fn lemma_generation_is_repeatable(
    generator: Generator,
    set: ModuleRequestSet,
    first: Result<Vec<GeneratedFile>, GenerateError>,
    second: Result<Vec<GeneratedFile>, GenerateError>,
)
    requires
        outcome_view(first) == generator.output(set),
        outcome_view(second) == generator.output(set),
    ensures
        outcome_view(first) == outcome_view(second),
{
}

/// Every whole file that a generator hands back starts with the generation
/// marker and ends with the marker of the insertion point.
pub proof fn lemma_whole_files_are_marked(generator: Generator, set: ModuleRequestSet, i: int)
    requires
        generator.output(set) matches Ok(files) && 0 <= i < files.len() && files[i].insertion_point is None,
    ensures
        starts_with_marker(generator.output(set)->Ok_0[i].content),
        ends_with_insertion_point(generator.output(set)->Ok_0[i].content),
    decreases generator,
{
    match generator {
        Generator::Base(stage) => {
            let contents = stage.delegated()->Ok_0;
            lemma_base_files_are_enveloped(
                set,
                contents_view(contents@),
                set.requests@.len() as int,
                i,
            );
        },
        Generator::Route(stage) => {
            lemma_route_files_are_marked(stage@, set.requests@, set.requests@.len() as int, i);
        },
        Generator::Serde(stage) => {
            let outputs = stage.delegated()->Ok_0;
            lemma_serde_files_are_marked_fragments(
                set,
                outputs_view(outputs@),
                outputs@.len() as int,
                i,
            );
        },
        Generator::Chained(first, second) => {
            let files = first.output(set)->Ok_0;
            if i < files.len() {
                lemma_whole_files_are_marked(*first, set, i);
            } else {
                lemma_whole_files_are_marked(*second, set, i - files.len());
            }
        },
    }
}

} // verus!
