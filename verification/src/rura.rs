//! A pipeline: the list of its steps as the user typed them.
use crate::text::{join_with_pipe, str_trim, to_owned_string, trim_chars};
use vstd::prelude::*;
use vstd::string::*;

verus! {

/// A pipeline of shell steps, joined by `|` when run as one command.
pub struct Rura {
    pub steps: Vec<String>,
}

/// `s` split at every `|`, as `str::split('|')` splits it: `k` pipes give
/// `k + 1` pieces.
pub open spec fn split_at_pipes(s: Seq<char>) -> Seq<Seq<char>>
    decreases s.len(),
{
    if s.len() == 0 {
        seq![Seq::empty()]
    } else {
        let parts = split_at_pipes(s.drop_last());
        if s.last() == '|' {
            parts.push(Seq::empty())
        } else {
            parts.update(parts.len() - 1, parts.last().push(s.last()))
        }
    }
}

proof fn lemma_split_without_pipe(b: Seq<char>)
    requires
        !b.contains('|'),
    ensures
        split_at_pipes(b) == seq![b],
    decreases b.len(),
{
    if b.len() > 0 {
        let init = b.drop_last();
        assert(!init.contains('|')) by {
            if init.contains('|') {
                let i = choose|i: int| 0 <= i < init.len() && init[i] == '|';
                assert(b[i] == '|');
            }
        }
        lemma_split_without_pipe(init);
        assert(b.last() != '|') by {
            assert(b[b.len() - 1] == b.last());
        }
        assert(init.push(b.last()) =~= b);
        assert(seq![init].update(0, init.push(b.last())) =~= seq![b]);
    } else {
        assert(b =~= Seq::<char>::empty());
    }
}

proof fn lemma_split_after_pipe(a: Seq<char>, b: Seq<char>)
    requires
        !b.contains('|'),
    ensures
        split_at_pipes(a + seq!['|'] + b) == split_at_pipes(a).push(b),
    decreases b.len(),
{
    let x = a + seq!['|'] + b;
    if b.len() == 0 {
        assert(x.drop_last() =~= a);
        assert(x.last() == '|');
        assert(b =~= Seq::<char>::empty());
    } else {
        let init = b.drop_last();
        assert(!init.contains('|')) by {
            if init.contains('|') {
                let i = choose|i: int| 0 <= i < init.len() && init[i] == '|';
                assert(b[i] == '|');
            }
        }
        lemma_split_after_pipe(a, init);
        assert(x.drop_last() =~= a + seq!['|'] + init);
        assert(x.last() == b.last());
        assert(b.last() != '|') by {
            assert(b[b.len() - 1] == b.last());
        }
        assert(init.push(b.last()) =~= b);
        assert(split_at_pipes(a).push(init).update(split_at_pipes(a).len() as int, init.push(b.last()))
            =~= split_at_pipes(a).push(b));
    }
}

/// Joining steps that hold no `|` loses nothing: splitting the joined
/// command at its pipes gives the steps back.
pub proof fn law_splitting_the_command_gives_the_steps(steps: Seq<Seq<char>>)
    requires
        steps.len() >= 1,
        forall|i: int| 0 <= i < steps.len() ==> !(#[trigger] steps[i]).contains('|'),
    ensures
        split_at_pipes(join_with_pipe(steps)) == steps,
    decreases steps.len(),
{
    if steps.len() == 1 {
        lemma_split_without_pipe(steps[0]);
        assert(seq![steps[0]] =~= steps);
    } else {
        let init = steps.drop_last();
        assert forall|i: int| 0 <= i < init.len() implies !(#[trigger] init[i]).contains('|') by {
            assert(init[i] == steps[i]);
        }
        law_splitting_the_command_gives_the_steps(init);
        assert(!steps[steps.len() - 1].contains('|'));
        lemma_split_after_pipe(join_with_pipe(init), steps.last());
        assert(init.push(steps.last()) =~= steps);
    }
}

impl Rura {
    /// The steps as character sequences.
    pub open spec fn steps_view(&self) -> Seq<Seq<char>> {
        self.steps@.map_values(|s: String| s@)
    }

    /// The steps with surrounding white space removed.
    pub open spec fn trimmed_view(&self) -> Seq<Seq<char>> {
        self.steps@.map_values(|s: String| trim_chars(s@))
    }

    /// A pipeline without steps.
    pub fn empty() -> (r: Self)
        ensures
            r.steps@.len() == 0,
    {
        Self { steps: Vec::new() }
    }

    /// Whether the pipeline has no step.
    pub fn is_empty(&self) -> (b: bool)
        ensures
            b == (self.steps@.len() == 0),
    {
        self.steps.len() == 0
    }

    /// Number of steps.
    pub fn len(&self) -> (n: usize)
        ensures
            n == self.steps@.len(),
    {
        self.steps.len()
    }

    /// The whole pipeline as one command: the steps joined by `|`.
    pub fn to_string(&self) -> (r: String)
        ensures
            r@ == join_with_pipe(self.steps_view()),
    {
        let mut r = String::new();
        let mut i: usize = 0;
        while i < self.steps.len()
            invariant
                i <= self.steps@.len(),
                r@ == join_with_pipe(self.steps_view().take(i as int)),
            decreases self.steps@.len() - i,
        {
            assert(self.steps_view().take(i as int + 1).drop_last() =~= self.steps_view().take(i as int));
            if i > 0 {
                let pipe = "|";
                proof {
                    reveal_strlit("|");
                }
                r.append(pipe);
            }
            r.append(self.steps[i].as_str());
            i = i + 1;
        }
        assert(self.steps_view().take(i as int) =~= self.steps_view());
        r
    }

    /// Each step with its surrounding white space removed.
    pub fn trimmed(&self) -> (r: Vec<String>)
        ensures
            r@.len() == self.steps@.len(),
            forall|i: int| 0 <= i < r@.len() ==> #[trigger] r@[i]@ == trim_chars(self.steps@[i]@),
    {
        let mut r: Vec<String> = Vec::new();
        let mut i: usize = 0;
        while i < self.steps.len()
            invariant
                i <= self.steps@.len(),
                r@.len() == i,
                forall|j: int| 0 <= j < i ==> #[trigger] r@[j]@ == trim_chars(self.steps@[j]@),
            decreases self.steps@.len() - i,
        {
            let t = str_trim(self.steps[i].as_str());
            r.push(to_owned_string(t));
            i = i + 1;
        }
        r
    }
}

impl From<Vec<String>> for Rura {
    fn from(to_run: Vec<String>) -> (r: Self) {
        Self { steps: to_run }
    }
}

impl vstd::std_specs::convert::FromSpecImpl<Vec<String>> for Rura {
    open spec fn obeys_from_spec() -> bool {
        true
    }

    open spec fn from_spec(v: Vec<String>) -> Self {
        Rura { steps: v }
    }
}

impl From<&str> for Rura {
    /// A pipeline of a single step.
    fn from(to_run: &str) -> (r: Self)
        ensures
            r.steps@.len() == 1,
            r.steps@[0]@ == to_run@,
    {
        let mut steps: Vec<String> = Vec::new();
        steps.push(to_owned_string(to_run));
        Self { steps }
    }
}

impl vstd::std_specs::convert::FromSpecImpl<&str> for Rura {
    /// A `Vec` cannot be built in a specification, so the single-step result
    /// is stated by the `ensures` of `from` instead.
    open spec fn obeys_from_spec() -> bool {
        false
    }

    open spec fn from_spec(v: &str) -> Self {
        arbitrary()
    }
}

} // verus!
