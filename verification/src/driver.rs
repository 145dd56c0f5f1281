//! The course of a run, as a machine of states: what to read next, what to
//! write, and when to stop. Whoever runs it does the reading and the writing.

use crate::args::{Args, Metric};
use crate::error::{Error, ReadError};
use crate::record::{counts, is_counts, lemma_counts, value_of, File, FileView};
use crate::render::{
    column, decimal, join_lines, lemma_column_width, lines_text, plain_columns,
    read_from_standard_input, render, rendered, views,
};
use crate::total::{lemma_sum_of_nothing, lemma_value_within_sum, sum_of, Total};
use vstd::prelude::*;

verus! {

/// Where a run stands.
#[derive(Debug, Clone, Copy, PartialEq, Eq, Structural)]
pub enum State {
    /// Nothing was done yet.
    Init,
    /// The metrics are settled; the source of the texts is not.
    ResolveSources,
    /// The text of standard input is awaited.
    ReadStdin,
    /// The text of the next file is awaited.
    ProcessFiles,
    /// All files are counted; their rows are not written yet.
    Render,
    /// The run has ended well.
    Done,
    /// The run has ended with an error.
    Failure,
}

/// What is reported to the machine.
#[derive(Debug, PartialEq, Eq)]
pub enum Event {
    /// Nothing: the machine did not ask for anything.
    Resume,
    /// The text that the machine asked for.
    Content(String),
    /// The text that the machine asked for could not be read.
    ReadFailed(ReadError),
}

/// What the machine asks for.
#[derive(Debug, PartialEq, Eq)]
pub enum Action {
    /// Nothing: take the next step.
    Continue,
    /// Read standard input to its end, and report the text.
    ReadStdin,
    /// Read the file of this name, and report the text.
    ReadFile(String),
    /// Write this text to standard output.
    Write(String),
    /// Report this error on the diagnostic stream, and end without success.
    Fail(Error),
    /// The run is over.
    Stop,
}

/// A run: its state, its configuration, the records of the files counted so
/// far, and the running sums of their counts.
#[derive(Debug)]
pub struct Driver {
    state: State,
    args: Args,
    files: Vec<File>,
    total: Total,
}

impl Driver {
    /// Where the run stands.
    pub closed spec fn state(&self) -> State {
        self.state
    }

    /// The configuration of the run.
    pub closed spec fn args(&self) -> Args {
        self.args
    }

    /// The records of the files counted so far.
    pub closed spec fn files(&self) -> Seq<FileView> {
        views(self.files@)
    }

    /// The running sums.
    pub closed spec fn total(&self) -> Total {
        self.total
    }

    /// What holds of a run at every step: the records are those of the first
    /// files, in the order of their names, and each holds the counts of a
    /// text; each running sum is the sum of the values that the records give
    /// for its metric; and the state fits the number of files that are
    /// counted.
    pub open spec fn wf(&self) -> bool {
        &&& self.total().wf()
        &&& self.total().count() == self.files().len()
        &&& self.files().len() <= self.args().file_name.len()
        &&& forall|i: int|
            0 <= i < self.files().len() ==> {
                &&& (#[trigger] self.files()[i]).wf()
                &&& self.files()[i].name == self.args().file_name[i]@
                &&& is_counts(self.files()[i].values, self.args())
            }
        &&& forall|metric: Metric| #[trigger]
            self.total().sum(metric) == sum_of(self.files(), metric)
        &&& self.state() != State::Init ==> !self.args().wants_nothing()
        &&& match self.state() {
            State::Init | State::ResolveSources | State::ReadStdin => self.files().len() == 0,
            State::ProcessFiles => self.files().len() < self.args().file_name.len(),
            State::Render => 0 < self.files().len() == self.args().file_name.len(),
            State::Done | State::Failure => true,
        }
    }

    /// Whether the configuration, the records and the sums of `self` are those
    /// of `before`.
    pub open spec fn keeps(&self, before: &Driver) -> bool {
        &&& self.args() == before.args()
        &&& self.files() == before.files()
        &&& self.total() == before.total()
    }

    /// Whether `action` asks for the file of the given place.
    pub open spec fn asks_for(&self, action: Action, index: int) -> bool {
        action matches Action::ReadFile(name) && name@ == self.args().file_name[index]@
    }

    /// The step from `Init`: the default metrics are put in place.
    pub open spec fn steps_from_init(&self, after: &Driver, action: Action) -> bool {
        &&& after.state() == State::ResolveSources
        &&& after.args() == self.args().resolved()
        &&& after.files() == self.files()
        &&& after.total() == self.total()
        &&& action is Continue
    }

    /// The step from `ResolveSources`: with no file named, standard input is
    /// asked for, else the first file.
    pub open spec fn steps_from_resolve_sources(&self, after: &Driver, action: Action) -> bool {
        &&& after.keeps(self)
        &&& if self.args().file_name.len() == 0 {
            after.state() == State::ReadStdin && action is ReadStdin
        } else {
            after.state() == State::ProcessFiles && self.asks_for(action, 0)
        }
    }

    /// The step from `ReadStdin`: the counts of the text are written, each in
    /// a column of its own width, and the run is done; or it fails, where the
    /// text could not be read or has no longest line to measure.
    pub open spec fn steps_from_read_stdin(
        &self,
        event: Event,
        after: &Driver,
        action: Action,
    ) -> bool {
        &&& after.keeps(self)
        &&& match event {
            Event::Resume => after.state() == State::ReadStdin && action is ReadStdin,
            Event::ReadFailed(e) => after.state() == State::Failure && action == Action::Fail(
                Error::Read(e),
            ),
            Event::Content(content) => if self.args().max_line_length && content@.len() == 0 {
                after.state() == State::Failure && action matches Action::Fail(
                    Error::EmptyContent(_),
                )
            } else {
                &&& after.state() == State::Done
                &&& action matches Action::Write(text)
                &&& text@ == plain_columns(counts(self.args(), content@))
            },
        }
    }

    /// The step from `ProcessFiles`: the text is counted, its record joins
    /// the others and its counts the sums, and the next file is asked for,
    /// or, after the last, the state is `Render`; or the run fails, where the
    /// text could not be read or has no longest line to measure.
    pub open spec fn steps_from_process_files(
        &self,
        event: Event,
        after: &Driver,
        action: Action,
    ) -> bool {
        let index = self.files().len() as int;
        &&& after.args() == self.args()
        &&& match event {
            Event::Resume => after.keeps(self) && after.state() == State::ProcessFiles
                && self.asks_for(action, index),
            Event::ReadFailed(e) => after.keeps(self) && after.state() == State::Failure && action
                == Action::Fail(Error::Read(e)),
            Event::Content(content) => if self.args().max_line_length && content@.len() == 0 {
                after.keeps(self) && after.state() == State::Failure && action matches Action::Fail(
                    Error::EmptyContent(_),
                )
            } else {
                let values = counts(self.args(), content@);
                &&& after.files() == self.files().push(
                    FileView { name: self.args().file_name[index]@, values },
                )
                &&& forall|metric: Metric| #[trigger]
                    after.total().sum(metric) == self.total().sum(metric) + value_of(values, metric)
                &&& if index + 1 < self.args().file_name.len() {
                    after.state() == State::ProcessFiles && self.asks_for(action, index + 1)
                } else {
                    after.state() == State::Render && action is Continue
                }
            },
        }
    }

    /// The step from `Render`: the rows are written, a line feed after each.
    pub open spec fn steps_from_render(&self, after: &Driver, action: Action) -> bool {
        &&& after.keeps(self)
        &&& after.state() == State::Done
        &&& action matches Action::Write(text)
        &&& text@ == lines_text(rendered(self.args(), self.files(), self.total()))
    }

    /// The step that a run takes from its state on an event: the run after
    /// it, and what it asks for.
    pub open spec fn steps(&self, event: Event, after: &Driver, action: Action) -> bool {
        match self.state() {
            State::Init => self.steps_from_init(after, action),
            State::ResolveSources => self.steps_from_resolve_sources(after, action),
            State::ReadStdin => self.steps_from_read_stdin(event, after, action),
            State::ProcessFiles => self.steps_from_process_files(event, after, action),
            State::Render => self.steps_from_render(after, action),
            State::Done | State::Failure => after.keeps(self) && after.state() == self.state()
                && action is Stop,
        }
    }

    /// In every row of a record, each column is exactly as wide as the
    /// running sum of its metric has digits, before the space that ends it:
    /// no count of a record is more than that sum.
    pub proof fn lemma_columns_aligned(&self, i: int, j: int)
        requires
            self.wf(),
            0 <= i < self.files().len(),
            0 <= j < self.files()[i].values.len(),
        ensures
            ({
                let (metric, value) = self.files()[i].values[j];
                let width = decimal(self.total().sum(metric)).len();
                &&& value <= self.total().sum(metric)
                &&& decimal(value).len() <= width
                &&& column(value, width).len() == width + 1
            }),
    {
        let (metric, value) = self.files()[i].values[j];
        lemma_value_within_sum(self.files(), i, j);
        lemma_column_width(value, self.total().sum(metric));
    }

    /// The running sum of a metric that is not asked for stays 0.
    pub proof fn lemma_unwanted_sum_is_zero(&self, metric: Metric)
        requires
            self.wf(),
            !self.args().wants(metric),
        ensures
            self.total().sum(metric) == 0,
    {
        assert forall|i: int| 0 <= i < self.files().len() implies value_of(
            (#[trigger] self.files()[i]).values,
            metric,
        ) == 0 by {
            let text = choose|text: Seq<char>|
                self.files()[i].values == #[trigger] counts(self.args(), text);
            lemma_counts(self.args(), text, metric);
        }
        lemma_sum_of_nothing(self.files(), metric);
    }

    /// Nothing is written before a failure, and nothing after it: only a
    /// step that awaits a text can fail; what is written ends the run well;
    /// and a run that has ended only stops.
    pub proof fn lemma_failure_without_output(&self, event: Event, after: &Driver, action: Action)
        requires
            self.steps(event, after, action),
        ensures
            action is Fail ==> after.state() == State::Failure && (self.state() == State::ReadStdin
                || self.state() == State::ProcessFiles),
            action is Write ==> after.state() == State::Done,
            self.state() == State::Done || self.state() == State::Failure ==> action is Stop
                && after.state() == self.state(),
    {
    }

    /// A run that has not begun.
    pub fn new(args: Args) -> (driver: Driver)
        ensures
            driver.wf(),
            driver.state() == State::Init,
            driver.args() == args,
            driver.files().len() == 0,
            forall|metric: Metric| #[trigger] driver.total().sum(metric) == 0,
    {
        Driver { state: State::Init, args, files: Vec::new(), total: Total::default() }
    }

    /// Where the run stands.
    pub fn current(&self) -> (state: State)
        ensures
            state == self.state(),
    {
        self.state
    }

    /// Takes one step.
    pub fn step(&mut self, event: Event) -> (action: Action)
        requires
            old(self).wf(),
        ensures
            final(self).wf(),
            old(self).steps(event, final(self), action),
    {
        match self.state {
            State::Init => {
                self.args.resolve();
                self.state = State::ResolveSources;
                Action::Continue
            },
            State::ResolveSources => {
                if self.args.file_name.len() == 0 {
                    self.state = State::ReadStdin;
                    Action::ReadStdin
                } else {
                    self.state = State::ProcessFiles;
                    Action::ReadFile(self.args.file_name[0].clone())
                }
            },
            State::ReadStdin => match event {
                Event::Resume => Action::ReadStdin,
                Event::ReadFailed(e) => {
                    self.state = State::Failure;
                    Action::Fail(Error::Read(e))
                },
                Event::Content(content) => match read_from_standard_input(
                    &self.args,
                    content.as_str(),
                ) {
                    Ok(text) => {
                        self.state = State::Done;
                        Action::Write(text)
                    },
                    Err(e) => {
                        self.state = State::Failure;
                        Action::Fail(Error::EmptyContent(e))
                    },
                },
            },
            State::ProcessFiles => match event {
                Event::Resume => Action::ReadFile(self.args.file_name[self.files.len()].clone()),
                Event::ReadFailed(e) => {
                    self.state = State::Failure;
                    Action::Fail(Error::Read(e))
                },
                Event::Content(content) => {
                    let index = self.files.len();
                    match File::accumulate(
                        self.args.file_name[index].as_str(),
                        content.as_str(),
                        &self.args,
                        &mut self.total,
                    ) {
                        Err(e) => {
                            self.state = State::Failure;
                            Action::Fail(Error::EmptyContent(e))
                        },
                        Ok(file) => {
                            let ghost before = views(self.files@);
                            self.files.push(file);
                            proof {
                                assert(views(self.files@) =~= before.push(file@));
                                assert(views(self.files@).drop_last() == before);
                            }
                            if index + 1 < self.args.file_name.len() {
                                Action::ReadFile(self.args.file_name[index + 1].clone())
                            } else {
                                self.state = State::Render;
                                Action::Continue
                            }
                        },
                    }
                },
            },
            State::Render => {
                let rows = render(&self.args, &self.files, &self.total);
                self.state = State::Done;
                Action::Write(join_lines(&rows))
            },
            State::Done | State::Failure => Action::Stop,
        }
    }
}

} // verus!
