use vstd::prelude::*;

verus! {

/// The number of builtins metered: pedersen, range check, ecdsa, bitwise,
/// ec op, keccak, poseidon and segment arena, in that order.
pub const BUILTIN_COUNT: usize = 8;

/// Why metering stopped an execution.
#[derive(Clone, Copy, Debug, PartialEq, Eq, Structural)]
pub enum ResourceError {
    /// The step budget, or a counter's range, would be exceeded.
    ResourceExhausted,
}

/// Execution cost so far: steps, and the usage of each builtin.
pub struct ExecutionResources {
    pub n_steps: u64,
    pub builtin_usage: Vec<u64>,
}

/// The step count and the builtin usages, as numbers.
pub struct ResourcesView {
    pub steps: nat,
    pub builtins: Seq<nat>,
}

pub open spec fn usage_view(v: Seq<u64>) -> Seq<nat> {
    v.map_values(|x: u64| x as nat)
}

impl View for ExecutionResources {
    type V = ResourcesView;

    open spec fn view(&self) -> ResourcesView {
        ResourcesView { steps: self.n_steps as nat, builtins: usage_view(self.builtin_usage@) }
    }
}

/// The sum of two costs, counter by counter.
pub open spec fn add_resources(a: ResourcesView, b: ResourcesView) -> ResourcesView {
    ResourcesView {
        steps: a.steps + b.steps,
        builtins: Seq::new(BUILTIN_COUNT as nat, |i: int| a.builtins[i] + b.builtins[i]),
    }
}

/// The sum fits the step budget and every counter's range.
pub open spec fn fits_budget(a: ResourcesView, b: ResourcesView, max_steps: u64) -> bool {
    a.steps + b.steps <= max_steps
        && forall|i: int| 0 <= i < a.builtins.len() ==> a.builtins[i] + b.builtins[i] <= u64::MAX
}

impl ExecutionResources {
    pub open spec fn wf(&self) -> bool {
        self.builtin_usage@.len() == BUILTIN_COUNT
    }

    /// No cost yet.
    pub fn new() -> (r: ExecutionResources)
        ensures
            r.wf(),
            r@.steps == 0,
            forall|i: int| 0 <= i < BUILTIN_COUNT ==> r@.builtins[i] == 0,
    {
        ExecutionResources { n_steps: 0, builtin_usage: vec![0u64; BUILTIN_COUNT] }
    }

    /// Adds `other` to these counters, or leaves them as they were and fails
    /// where the sum would pass `max_steps` or a counter's range.
    fn add_checked(&mut self, steps: u64, usage: &Vec<u64>, max_steps: u64) -> (r: Result<(), ResourceError>)
        requires
            old(self).wf(),
            usage@.len() == BUILTIN_COUNT,
        ensures
            final(self).wf(),
            r is Ok <==> fits_budget(old(self)@, ResourcesView { steps: steps as nat, builtins: usage_view(usage@) }, max_steps),
            r is Ok ==> final(self)@ == add_resources(old(self)@, ResourcesView { steps: steps as nat, builtins: usage_view(usage@) }),
            r is Err ==> final(self)@ == old(self)@,
    {
        let ghost amount = ResourcesView { steps: steps as nat, builtins: usage_view(usage@) };
        if steps > max_steps || self.n_steps > max_steps - steps {
            return Err(ResourceError::ResourceExhausted);
        }
        let mut i: usize = 0;
        while i < BUILTIN_COUNT
            invariant
                0 <= i <= BUILTIN_COUNT,
                self.builtin_usage@.len() == BUILTIN_COUNT,
                usage@.len() == BUILTIN_COUNT,
                amount.builtins == usage_view(usage@),
                amount.steps == steps as nat,
                forall|j: int| 0 <= j < i ==> self.builtin_usage@[j] + usage@[j] <= u64::MAX,
            decreases BUILTIN_COUNT - i,
        {
            if self.builtin_usage[i] > u64::MAX - usage[i] {
                assert(!fits_budget(self@, amount, max_steps)) by {
                    assert(self@.builtins[i as int] + amount.builtins[i as int] > u64::MAX);
                }
                return Err(ResourceError::ResourceExhausted);
            }
            i = i + 1;
        }
        let ghost before = self@;
        let mut k: usize = 0;
        while k < BUILTIN_COUNT
            invariant
                0 <= k <= BUILTIN_COUNT,
                self.builtin_usage@.len() == BUILTIN_COUNT,
                usage@.len() == BUILTIN_COUNT,
                before.builtins.len() == BUILTIN_COUNT,
                self.n_steps == before.steps,
                forall|j: int| 0 <= j < BUILTIN_COUNT ==> before.builtins[j] + usage@[j] <= u64::MAX,
                forall|j: int| 0 <= j < k ==> self.builtin_usage@[j] == before.builtins[j] + usage@[j],
                forall|j: int| k <= j < BUILTIN_COUNT ==> self.builtin_usage@[j] == before.builtins[j],
            decreases BUILTIN_COUNT - k,
        {
            let v = self.builtin_usage[k] + usage[k];
            self.builtin_usage.set(k, v);
            k = k + 1;
        }
        self.n_steps = self.n_steps + steps;
        assert(self@.builtins =~= add_resources(before, amount).builtins);
        Ok(())
    }

    /// Charges this frame for work of its own.
    pub fn charge(&mut self, steps: u64, builtin_usage: &Vec<u64>, max_steps: u64) -> (r: Result<(), ResourceError>)
        requires
            old(self).wf(),
            builtin_usage@.len() == BUILTIN_COUNT,
        ensures
            final(self).wf(),
            r is Ok <==> fits_budget(old(self)@, ResourcesView { steps: steps as nat, builtins: usage_view(builtin_usage@) }, max_steps),
            r is Ok ==> final(self)@ == add_resources(old(self)@, ResourcesView { steps: steps as nat, builtins: usage_view(builtin_usage@) }),
            r is Err ==> final(self)@ == old(self)@,
    {
        self.add_checked(steps, builtin_usage, max_steps)
    }

    /// Folds a nested call's totals into this frame's.
    pub fn merge_child(&mut self, child: &ExecutionResources, max_steps: u64) -> (r: Result<(), ResourceError>)
        requires
            old(self).wf(),
            child.wf(),
        ensures
            final(self).wf(),
            r is Ok <==> fits_budget(old(self)@, child@, max_steps),
            r is Ok ==> final(self)@ == add_resources(old(self)@, child@),
            r is Err ==> final(self)@ == old(self)@,
    {
        self.add_checked(child.n_steps, &child.builtin_usage, max_steps)
    }

    /// The steps left before `max_steps`, zero where none are.
    pub fn remaining_budget(&self, max_steps: u64) -> (r: u64)
        ensures
            r == if self.n_steps <= max_steps { max_steps - self.n_steps } else { 0 },
    {
        if self.n_steps <= max_steps {
            max_steps - self.n_steps
        } else {
            0
        }
    }
}

/// A call frame: what it charged for its own work, and the frames it called,
/// in call order.
pub struct CallTree {
    pub charged: ResourcesView,
    pub children: Seq<CallTree>,
}

/// No cost.
pub open spec fn zero_resources() -> ResourcesView {
    ResourcesView { steps: 0, builtins: Seq::new(BUILTIN_COUNT as nat, |_i: int| 0nat) }
}

/// The frame's final counters: its own charge, then each child's final
/// counters merged in, in call order.
pub open spec fn frame_total(t: CallTree) -> ResourcesView
    decreases t, t.children.len() + 1,
{
    add_resources(t.charged, children_total(t, t.children.len()))
}

/// The merged final counters of the first `n` children of a frame.
pub open spec fn children_total(t: CallTree, n: nat) -> ResourcesView
    decreases t, n,
{
    if n == 0 || n > t.children.len() {
        zero_resources()
    } else {
        add_resources(children_total(t, (n - 1) as nat), frame_total(t.children[n - 1]))
    }
}

/// Every frame of a call tree, the root first, each child's frames in call
/// order after it (preorder).
pub open spec fn all_frames(t: CallTree) -> Seq<ResourcesView>
    decreases t, t.children.len() + 1,
{
    seq![t.charged] + children_frames(t, t.children.len())
}

/// The frames of the first `n` children of a frame, in call order.
pub open spec fn children_frames(t: CallTree, n: nat) -> Seq<ResourcesView>
    decreases t, n,
{
    if n == 0 || n > t.children.len() {
        seq![]
    } else {
        children_frames(t, (n - 1) as nat) + all_frames(t.children[n - 1])
    }
}

/// The sum of a sequence of costs.
pub open spec fn sum_resources(s: Seq<ResourcesView>) -> ResourcesView
    decreases s.len(),
{
    if s.len() == 0 {
        zero_resources()
    } else {
        add_resources(sum_resources(s.drop_last()), s.last())
    }
}

proof fn lemma_add_assoc(x: ResourcesView, y: ResourcesView, z: ResourcesView)
    ensures
        add_resources(add_resources(x, y), z) == add_resources(x, add_resources(y, z)),
{
    assert(add_resources(add_resources(x, y), z).builtins =~= add_resources(x, add_resources(y, z)).builtins);
}

proof fn lemma_sum_len(s: Seq<ResourcesView>)
    ensures
        sum_resources(s).builtins.len() == BUILTIN_COUNT,
{
}

proof fn lemma_sum_append(a: Seq<ResourcesView>, b: Seq<ResourcesView>)
    ensures
        sum_resources(a + b) == add_resources(sum_resources(a), sum_resources(b)),
    decreases b.len(),
{
    lemma_sum_len(a);
    if b.len() == 0 {
        assert(a + b =~= a);
        assert(add_resources(sum_resources(a), zero_resources()).builtins =~= sum_resources(a).builtins);
    } else {
        assert((a + b).drop_last() =~= a + b.drop_last());
        lemma_sum_append(a, b.drop_last());
        lemma_add_assoc(sum_resources(a), sum_resources(b.drop_last()), b.last());
    }
}

proof fn lemma_frame_total_is_sum(t: CallTree)
    ensures
        frame_total(t) == sum_resources(all_frames(t)),
    decreases t, t.children.len() + 1,
{
    lemma_children_total_is_sum(t, t.children.len());
    let c = children_frames(t, t.children.len());
    let single = seq![t.charged];
    lemma_sum_append(single, c);
    assert(single.drop_last() =~= Seq::<ResourcesView>::empty());
    assert(sum_resources(single.drop_last()) == zero_resources());
    assert(sum_resources(single) == add_resources(zero_resources(), t.charged));
    assert(all_frames(t) == single + c);
    let x = sum_resources(c);
    assert(add_resources(add_resources(zero_resources(), t.charged), x).builtins =~= add_resources(t.charged, x).builtins);
}

proof fn lemma_children_total_is_sum(t: CallTree, n: nat)
    ensures
        children_total(t, n) == sum_resources(children_frames(t, n)),
    decreases t, n,
{
    if n == 0 || n > t.children.len() {
    } else {
        lemma_children_total_is_sum(t, (n - 1) as nat);
        lemma_frame_total_is_sum(t.children[n - 1]);
        lemma_sum_append(children_frames(t, (n - 1) as nat), all_frames(t.children[n - 1]));
    }
}

/// A frame that merges each nested call's final counters into its own ends
/// with the sum of what every frame of its call tree charged for itself.
pub proof fn lemma_root_total_is_sum_of_frames(t: CallTree)
    ensures
        frame_total(t) == sum_resources(all_frames(t)),
{
    lemma_frame_total_is_sum(t);
}

} // verus!
