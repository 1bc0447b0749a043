use vstd::prelude::*;

use crate::engine::{CompletionEngine, CompletionQueryBuilder, retry_query_until_ok};
use crate::langserver::{AnnotateType, CheckProblem, LangServerCommands, LangServerError};
use crate::stats::TreeAlgoStats;

verus! {

/// A code block tree, as the analyzer's `tree` command reports it.
pub struct CodeBlockTree {
    /// A generated name; a name starting with `topnode` marks a
    /// root-level node, for which no usages are emitted.
    pub name: String,
    /// The block's source code.
    pub code: String,
    /// The nested blocks, in source order.
    pub children: Vec<CodeBlockTree>,
}

/// The mathematical shape of a code block tree.
#[verifier::ext_equal]
pub struct TreeModel {
    pub name: Seq<char>,
    pub code: Seq<char>,
    pub children: Seq<TreeModel>,
}

impl CodeBlockTree {
    /// The mathematical value of this tree.
    pub open spec fn model(self) -> TreeModel
        decreases self,
    {
        TreeModel { name: self.name@, code: self.code@, children: Self::models(self.children@) }
    }

    /// The mathematical values of a sequence of trees.
    pub open spec fn models(ts: Seq<CodeBlockTree>) -> Seq<TreeModel>
        decreases ts,
    {
        Seq::new(
            ts.len(),
            |i: int|
                if 0 <= i < ts.len() {
                    ts[i].model()
                } else {
                    TreeModel { name: Seq::empty(), code: Seq::empty(), children: Seq::empty() }
                },
        )
    }
}

/// The tree with every node deeper than `depth` cut away: at depth
/// zero the children are dropped, otherwise each child is limited to
/// one level less.
pub open spec fn spec_depth_limit(t: TreeModel, depth: nat) -> TreeModel
    decreases depth,
{
    if depth == 0 {
        TreeModel { name: t.name, code: t.code, children: Seq::empty() }
    } else {
        TreeModel {
            name: t.name,
            code: t.code,
            children: Seq::new(
                t.children.len(),
                |i: int| spec_depth_limit(t.children[i], (depth - 1) as nat),
            ),
        }
    }
}

impl CodeBlockTree {
    /// Cuts the tree off below the given depth.
    pub fn depth_limit(&mut self, depth: usize)
        ensures
            final(self).model() == spec_depth_limit(old(self).model(), depth as nat),
        decreases depth,
    {
        if depth == 0 {
            self.children = Vec::new();
            proof {
                assert(self.model().name == spec_depth_limit(old(self).model(), 0nat).name);
                assert(self.model().code == spec_depth_limit(old(self).model(), 0nat).code);
                assert(self.model().children =~= Seq::<TreeModel>::empty());
                assert(spec_depth_limit(old(self).model(), 0nat).children =~= Seq::<
                    TreeModel,
                >::empty());
                assert(self.model() =~= spec_depth_limit(old(self).model(), 0nat));
            }
        } else {
            let ghost orig = CodeBlockTree::models(self.children@);
            let mut cs = self.children.split_off(0);
            proof {
                assert(CodeBlockTree::models(cs@) =~= orig);
            }
            let n = cs.len();
            let mut out: Vec<CodeBlockTree> = Vec::new();
            let mut i: usize = 0;
            while i < n
                invariant
                    orig.len() == n,
                    i <= n,
                    cs@.len() == n - i,
                    CodeBlockTree::models(cs@) =~= orig.skip(i as int),
                    out.len() == i,
                    forall|j: int|
                        0 <= j < i ==> (#[trigger] out@[j]).model() == spec_depth_limit(
                            orig[j],
                            (depth - 1) as nat,
                        ),
                    depth >= 1,
                decreases n - i,
            {
                let ghost prev = CodeBlockTree::models(cs@);
                let mut c = cs.remove(0);
                proof {
                    assert(c.model() == prev[0]);
                    assert(prev[0] == orig[i as int]);
                    assert(CodeBlockTree::models(cs@) =~= orig.skip(i + 1 as int)) by {
                        assert(forall|k: int|
                            0 <= k < cs@.len() ==> CodeBlockTree::models(cs@)[k] == prev[k + 1]);
                        assert(forall|k: int|
                            0 <= k < cs@.len() ==> #[trigger] prev[k + 1] == orig.skip(
                                i as int,
                            )[k + 1]);
                    };
                }
                c.depth_limit(depth - 1);
                let ghost cv = c.model();
                let ghost outp = out@;
                out.push(c);
                proof {
                    assert(cv == spec_depth_limit(orig[i as int], (depth - 1) as nat));
                    assert(out@[i as int].model() == cv);
                    assert(forall|j: int| 0 <= j < i ==> out@[j] == outp[j]);
                }
                i += 1;
            }
            self.children = out;
            proof {
                assert(old(self).model().children == orig);
                assert(forall|j: int|
                    0 <= j < n ==> CodeBlockTree::models(self.children@)[j] == (
                    #[trigger] self.children@[j]).model());
                assert(forall|j: int|
                    0 <= j < n ==> CodeBlockTree::models(self.children@)[j] == spec_depth_limit(
                        orig[j],
                        (depth - 1) as nat,
                    ));
                assert(CodeBlockTree::models(self.children@).len() == n);
                assert(forall|j: int|
                    0 <= j < n ==> spec_depth_limit(old(self).model(), depth as nat).children[j]
                        == spec_depth_limit(orig[j], (depth - 1) as nat));
                assert(self.model().children =~= spec_depth_limit(
                    old(self).model(),
                    depth as nat,
                ).children);
                assert(self.model() =~= spec_depth_limit(old(self).model(), depth as nat));
            }
        }
    }
}

/// The per-node record inside a level.
pub struct CompNode {
    /// Positions of this node's children in the next deeper level.
    pub children_idxs: Vec<usize>,
    /// The node's generated name.
    pub name: String,
    /// The node's original code.
    pub code: String,
    /// The candidate completions, filled in once the node's level runs.
    pub completed: Vec<String>,
    /// A snippet showing how the parent uses this block, or empty.
    pub usages: String,
}

/// One level of the flattened tree, root level first.
pub struct CompLevel {
    pub nodes: Vec<CompNode>,
}

// The states of the completion pipeline; operations exist only on the
// state where they are valid, so out-of-order calls do not compile.
//
// new -> prepare -> tree_complete -> disassemble
pub struct NewState;

pub struct PreparedState;

pub struct CompletedState;

/// The frozen knobs that travel through the pipeline.
pub struct HyperParams {
    /// Retries propagated to each completion query.
    pub retries: usize,
    /// Candidates asked of the engine per query.
    pub num_comps: usize,
    /// Whether the engine may fall back to the `any` type.
    pub fallback: bool,
    /// Whether to extract sibling usages during preparation.
    pub usages: bool,
    /// Whether to stub inner blocks before prompting.
    pub stub: bool,
    /// The per-node upper bound on candidates after merging.
    pub stop_at: usize,
    /// Which categories of types should be annotated.
    pub types: Vec<AnnotateType>,
}

/// The level-wise completion pipeline, in one of its states.
pub struct CompletionLevels<State> {
    /// The flattened levels, root level first.
    pub levels: Vec<CompLevel>,
    /// The knobs the pipeline runs with.
    pub params: HyperParams,
    /// Optional counters filled in while the pipeline runs.
    pub stats: Option<TreeAlgoStats>,
    /// The state marker; only the transition methods move it forward.
    pub state: core::marker::PhantomData<State>,
}


impl CompletionLevels<NewState> {
    /// A pipeline that has not seen a tree yet.
    pub fn new(hyperparams: HyperParams, stats: Option<TreeAlgoStats>) -> (r: Self)
        ensures
            r.levels@.len() == 0,
            r.params == hyperparams,
            r.stats == stats,
    {
        CompletionLevels {
            levels: Vec::new(),
            params: hyperparams,
            stats,
            state: core::marker::PhantomData,
        }
    }
}

/// `base` raised to `exp`.
pub open spec fn pow_nat(base: nat, exp: nat) -> nat
    decreases exp,
{
    if exp == 0 {
        1
    } else {
        base * pow_nat(base, (exp - 1) as nat)
    }
}

proof fn lemma_pow_mono(base: nat, i: nat, exp: nat)
    requires
        base >= 1,
        i <= exp,
    ensures
        pow_nat(base, i) <= pow_nat(base, exp),
    decreases exp,
{
    if i < exp {
        lemma_pow_mono(base, i, (exp - 1) as nat);
        assert(pow_nat(base, exp) == base * pow_nat(base, (exp - 1) as nat));
        assert(base * pow_nat(base, (exp - 1) as nat) >= 1 * pow_nat(base, (exp - 1) as nat)) by (nonlinear_arith)
            requires
                base >= 1,
        ;
    }
}

/// `base` raised to `exp`, stopping at the largest representable value.
pub fn saturating_pow(base: usize, exp: usize) -> (r: usize)
    ensures
        pow_nat(base as nat, exp as nat) > usize::MAX ==> r == usize::MAX,
        pow_nat(base as nat, exp as nat) <= usize::MAX ==> r as nat == pow_nat(
            base as nat,
            exp as nat,
        ),
{
    let mut res: usize = 1;
    let mut i: usize = 0;
    while i < exp
        invariant
            i <= exp,
            res as nat == pow_nat(base as nat, i as nat),
        decreases exp - i,
    {
        res = match res.checked_mul(base) {
            Some(m) => m,
            None => {
                proof {
                    assert(res * base > usize::MAX);
                    assert(base >= 1) by {
                        if base == 0 {
                            assert(res * base == 0) by (nonlinear_arith)
                                requires
                                    base == 0,
                            ;
                        }
                    };
                    lemma_pow_mono(base as nat, (i + 1) as nat, exp as nat);
                    assert(pow_nat(base as nat, (i + 1) as nat) == base * pow_nat(
                        base as nat,
                        i as nat,
                    ));
                    assert(base * res == res * base) by (nonlinear_arith);
                }
                return usize::MAX;
            },
        };
        proof {
            assert(pow_nat(base as nat, (i + 1) as nat) == base * pow_nat(base as nat, i as nat));
            assert(base * pow_nat(base as nat, i as nat) == pow_nat(base as nat, i as nat) * base);
        }
        i += 1;
    }
    res
}

/// How many woven combinations merging `child` into `curr_prompts`
/// prompts could produce: the child's candidate count raised to the
/// prompt count, stopping at the largest representable value.
pub fn count_all_possible_combs(child: &CompNode, curr_prompts: usize) -> (r: usize)
    ensures
        pow_nat(child.completed@.len(), curr_prompts as nat) > usize::MAX ==> r == usize::MAX,
        pow_nat(child.completed@.len(), curr_prompts as nat) <= usize::MAX ==> r as nat == pow_nat(
            child.completed@.len(),
            curr_prompts as nat,
        ),
{
    saturating_pow(child.completed.len(), curr_prompts)
}

/// Splits a candidate budget evenly across a node's children.
///
/// The result has one entry per child, the entries sum to `stop_at`, and
/// the larger shares sit at the lower indices: entry `i` receives one of
/// the `stop_at % num_children` leftover units exactly when
/// `i < stop_at % num_children`.
pub fn distribute_stop_at(stop_at: usize, num_children: usize) -> (res: Vec<usize>)
    requires
        num_children > 0,
    ensures
        res.len() == num_children,
        forall|i: int|
            0 <= i < num_children ==> res[i] == stop_at as int / num_children as int + (
            if i < stop_at as int % num_children as int {
                1int
            } else {
                0int
            }),
        sum_usizes(res@) == stop_at,
        forall|i: int, j: int|
            0 <= i < num_children && 0 <= j < num_children ==> res[i] - res[j] <= 1,
{
    let mut res: Vec<usize> = Vec::new();
    let mut j: usize = 0;
    while j < num_children
        invariant
            j <= num_children,
            num_children > 0,
            res.len() == j,
            forall|i: int|
                0 <= i < j ==> res[i] == stop_at as int / num_children as int + (
                if i < stop_at as int % num_children as int {
                    1int
                } else {
                    0int
                }),
        decreases num_children - j,
    {
        let base = stop_at / num_children;
        let extra: usize = if j < stop_at % num_children {
            1
        } else {
            0
        };
        proof {
            if extra == 1 {
                assert(stop_at as int / num_children as int + 1 <= usize::MAX) by (nonlinear_arith)
                    requires
                        num_children > 0,
                        stop_at as int % num_children as int > 0,
                        stop_at <= usize::MAX,
                ;
            }
        }
        res.push(base + extra);
        j += 1;
    }
    proof {
        let n = stop_at as int;
        let k = num_children as int;
        lemma_dist_prefix_sum(res@, n, k, k);
        assert(res@.take(k) =~= res@);
        vstd::arithmetic::div_mod::lemma_fundamental_div_mod(n, k);
        assert(k * (n / k) == n / k * k) by (nonlinear_arith);
        assert(n % k < k) by {
            vstd::arithmetic::div_mod::lemma_mod_division_less_than_divisor(n, k);
        };
    }
    res
}

/// The sum of a sequence of counts.
pub open spec fn sum_usizes(s: Seq<usize>) -> int
    decreases s.len(),
{
    if s.len() == 0 {
        0
    } else {
        sum_usizes(s.drop_last()) + s.last()
    }
}

proof fn lemma_dist_prefix_sum(s: Seq<usize>, n: int, k: int, t: int)
    requires
        k > 0,
        n >= 0,
        0 <= t <= s.len(),
        s.len() == k,
        forall|i: int|
            0 <= i < s.len() ==> s[i] == n / k + (
            if i < n % k {
                1int
            } else {
                0int
            }),
    ensures
        sum_usizes(s.take(t)) == t * (n / k) + (if t <= n % k {
            t
        } else {
            n % k
        }),
    decreases t,
{
    if t > 0 {
        lemma_dist_prefix_sum(s, n, k, t - 1);
        assert(s.take(t).drop_last() =~= s.take(t - 1));
        assert(s.take(t).last() == s[t - 1]);
        assert(t * (n / k) == (t - 1) * (n / k) + (n / k)) by (nonlinear_arith);
    } else {
        assert(s.take(0) =~= Seq::<usize>::empty());
    }
}


/// The nettle level handed to `weave` when merging at tree level
/// `level`: zero at the root, one everywhere else.
pub open spec fn weave_level(level: nat) -> nat {
    if level >= 1 {
        1
    } else {
        0
    }
}

/// No string occurs twice.
pub open spec fn distinct_strs(s: Seq<Seq<char>>) -> bool {
    forall|a: int, b: int| 0 <= a < b < s.len() ==> s[a] != s[b]
}

/// The list with every repeated string dropped, first occurrences kept.
pub open spec fn dedup_strs(s: Seq<Seq<char>>) -> Seq<Seq<char>>
    decreases s.len(),
{
    if s.len() == 0 {
        Seq::empty()
    } else if s.drop_last().contains(s.last()) {
        dedup_strs(s.drop_last())
    } else {
        dedup_strs(s.drop_last()).push(s.last())
    }
}

/// Deduplication keeps exactly the strings of the original list.
pub proof fn lemma_dedup_contains(s: Seq<Seq<char>>, x: Seq<char>)
    ensures
        dedup_strs(s).contains(x) == s.contains(x),
    decreases s.len(),
{
    if s.len() > 0 {
        lemma_dedup_contains(s.drop_last(), x);
        if s.drop_last().contains(s.last()) {
            assert(s.contains(x) ==> s.drop_last().contains(x)) by {
                if s.contains(x) {
                    let k = choose|k: int| 0 <= k < s.len() && s[k] == x;
                    if k == s.len() - 1 {
                        assert(s.drop_last().contains(x));
                    } else {
                        assert(s.drop_last()[k] == x);
                    }
                }
            };
            assert(s.drop_last().contains(x) ==> s.contains(x)) by {
                if s.drop_last().contains(x) {
                    let k = choose|k: int| 0 <= k < s.drop_last().len() && s.drop_last()[k] == x;
                    assert(s[k] == x);
                }
            };
        } else {
            let d = dedup_strs(s.drop_last());
            assert(dedup_strs(s) == d.push(s.last()));
            assert(d.push(s.last()).contains(x) == (d.contains(x) || x == s.last())) by {
                if d.push(s.last()).contains(x) {
                    let k = choose|k: int|
                        0 <= k < d.push(s.last()).len() && d.push(s.last())[k] == x;
                    if k < d.len() {
                        assert(d[k] == x);
                    }
                }
                if d.contains(x) {
                    let k = choose|k: int| 0 <= k < d.len() && d[k] == x;
                    assert(d.push(s.last())[k] == x);
                }
                if x == s.last() {
                    assert(d.push(s.last())[d.len() as int] == x);
                }
            };
            assert(s.contains(x) == (s.drop_last().contains(x) || x == s.last())) by {
                if s.contains(x) {
                    let k = choose|k: int| 0 <= k < s.len() && s[k] == x;
                    if k < s.len() - 1 {
                        assert(s.drop_last()[k] == x);
                    }
                }
                if s.drop_last().contains(x) {
                    let k = choose|k: int| 0 <= k < s.drop_last().len() && s.drop_last()[k] == x;
                    assert(s[k] == x);
                }
                if x == s.last() {
                    assert(s[s.len() - 1] == x);
                }
            };
        }
    }
}

/// Deduplication leaves no duplicates behind.
pub proof fn lemma_dedup_distinct(s: Seq<Seq<char>>)
    ensures
        distinct_strs(dedup_strs(s)),
    decreases s.len(),
{
    if s.len() > 0 {
        lemma_dedup_distinct(s.drop_last());
        if !s.drop_last().contains(s.last()) {
            let d = dedup_strs(s.drop_last());
            lemma_dedup_contains(s.drop_last(), s.last());
            assert(!d.contains(s.last()));
            assert forall|a: int, b: int|
                0 <= a < b < d.push(s.last()).len() implies d.push(s.last())[a] != d.push(
                s.last(),
            )[b] by {
                if b < d.len() {
                } else {
                    assert(d.push(s.last())[b] == s.last());
                    if d.push(s.last())[a] == s.last() {
                        assert(d[a] == s.last());
                        assert(d.contains(s.last()));
                    }
                }
            }
        }
    }
}

/// The weaves of one prompt against each candidate, in order.
pub open spec fn row_weaves<L: LangServerCommands>(
    ls: L,
    p: Seq<char>,
    comps: Seq<Seq<char>>,
    lvl: nat,
) -> Seq<Seq<char>>
    decreases comps.len(),
{
    if comps.len() == 0 {
        Seq::empty()
    } else {
        row_weaves(ls, p, comps.drop_last(), lvl).push(ls.weave_spec(p, comps.last(), lvl))
    }
}

/// The weaves of every prompt against every candidate, prompt-major.
pub open spec fn cross_weaves<L: LangServerCommands>(
    ls: L,
    prompts: Seq<Seq<char>>,
    comps: Seq<Seq<char>>,
    lvl: nat,
) -> Seq<Seq<char>>
    decreases prompts.len(),
{
    if prompts.len() == 0 {
        Seq::empty()
    } else {
        cross_weaves(ls, prompts.drop_last(), comps, lvl) + row_weaves(
            ls,
            prompts.last(),
            comps,
            lvl,
        )
    }
}

/// Some prompt of `pr` woven with some candidate of `cs` gives `x`.
pub open spec fn woven_from<L: LangServerCommands>(
    ls: L,
    pr: Seq<Seq<char>>,
    cs: Seq<Seq<char>>,
    lvl: nat,
    x: Seq<char>,
) -> bool {
    exists|pi: int, ci: int|
        0 <= pi < pr.len() && 0 <= ci < cs.len() && x == ls.weave_spec(pr[pi], cs[ci], lvl)
}

/// Whether `v` holds the string `s`.
fn contains_string(v: &Vec<String>, s: &str) -> (r: bool)
    ensures
        r == v.deep_view().contains(s@),
{
    let mut i: usize = 0;
    while i < v.len()
        invariant
            i <= v@.len(),
            forall|k: int| 0 <= k < i ==> v.deep_view()[k] != s@,
        decreases v@.len() - i,
    {
        if crate::strutil::str_eq(v[i].as_str(), s) {
            proof {
                assert(v.deep_view()[i as int] == s@);
            }
            return true;
        }
        i += 1;
    }
    proof {
        if v.deep_view().contains(s@) {
            let k = choose|k: int| 0 <= k < v.deep_view().len() && v.deep_view()[k] == s@;
            assert(v.deep_view()[k] != s@);
        }
    }
    false
}


/// The sampler that the random merge draws indices from. The pipeline
/// assumes nothing of the drawn values; implementations typically
/// sample a distribution biased towards small indices.
pub trait IndexSampler {
    /// Draws the next index.
    fn sample(&mut self) -> usize;
}

/// All (prompt, candidate) pairs in prompt-major order, cut off at
/// `upper` pairs when an upper bound is given.
#[verifier::loop_isolation(false)]
pub fn all_combs(prompts: &Vec<String>, comps: &Vec<String>, upper: Option<usize>) -> (r: Vec<
    (String, String),
>)
    ensures
        ({
            let cap: int = match upper {
                Some(u) => u as int,
                None => usize::MAX as int,
            };
            let total: int = prompts@.len() as int * comps@.len() as int;
            r@.len() == (if total > cap {
                cap
            } else {
                total
            }) && (forall|k: int|
                0 <= k < r@.len() ==> (#[trigger] r@[k]).0@ == prompts@[k / comps@.len() as int]@
                    && r@[k].1@ == comps@[k % comps@.len() as int]@) && (forall|k: int|
                0 <= k < r@.len() ==> prompts.deep_view().contains(#[trigger] r@[k].0@)
                    && comps.deep_view().contains(r@[k].1@))
        }),
{
    let cap: usize = match upper {
        Some(u) => u,
        None => usize::MAX,
    };
    let mut res: Vec<(String, String)> = Vec::new();
    let m = comps.len();
    let ghost total: int = prompts@.len() as int * comps@.len() as int;
    proof {
        if prompts@.len() == 0 || comps@.len() == 0 {
            assert(total == 0) by (nonlinear_arith)
                requires
                    total == prompts@.len() * comps@.len(),
                    prompts@.len() == 0 || comps@.len() == 0,
            ;
        }
    }
    let mut i: usize = 0;
    while i < prompts.len()
        invariant
            i <= prompts@.len(),
            m == comps@.len(),
            total == prompts@.len() * comps@.len(),
            res@.len() == i * m,
            res@.len() <= cap,
            i * m <= total,
            forall|k: int|
                0 <= k < res@.len() ==> (#[trigger] res@[k]).0@ == prompts@[k / m as int]@
                    && res@[k].1@ == comps@[k % m as int]@,
            forall|k: int|
                0 <= k < res@.len() ==> prompts.deep_view().contains(#[trigger] res@[k].0@)
                    && comps.deep_view().contains(res@[k].1@),
        decreases prompts@.len() - i,
    {
        let mut j: usize = 0;
        while j < m
            invariant
                i < prompts@.len(),
                j <= m,
                m == comps@.len(),
                total == prompts@.len() * comps@.len(),
                res@.len() == i * m + j,
                res@.len() <= cap,
                i * m + j <= total,
                forall|k: int|
                    0 <= k < res@.len() ==> (#[trigger] res@[k]).0@ == prompts@[k / m as int]@
                        && res@[k].1@ == comps@[k % m as int]@,
                forall|k: int|
                    0 <= k < res@.len() ==> prompts.deep_view().contains(#[trigger] res@[k].0@)
                        && comps.deep_view().contains(res@[k].1@),
            decreases m - j,
        {
            if res.len() == cap {
                proof {
                    assert(i * m + j < total) by (nonlinear_arith)
                        requires
                            total == prompts@.len() * comps@.len(),
                            0 <= i < prompts@.len(),
                            0 <= j < m,
                            m == comps@.len(),
                    ;
                }
                return res;
            }
            let pair = (prompts[i].clone(), comps[j].clone());
            let ghost k = res@.len() as int;
            res.push(pair);
            proof {
                assert(k == i * m + j);
                vstd::arithmetic::div_mod::lemma_fundamental_div_mod_converse(
                    k,
                    m as int,
                    i as int,
                    j as int,
                );
                assert(k / m as int == i && k % m as int == j);
                assert(res@[k].0@ == prompts@[i as int]@);
                assert(prompts.deep_view()[i as int] == prompts@[i as int]@);
                assert(prompts.deep_view().contains(res@[k].0@));
                assert(comps.deep_view()[j as int] == comps@[j as int]@);
                assert(comps.deep_view().contains(res@[k].1@));
                assert(i * m + (j + 1) <= total) by (nonlinear_arith)
                    requires
                        total == prompts@.len() * comps@.len(),
                        0 <= i < prompts@.len(),
                        0 <= j < m,
                        m == comps@.len(),
                ;
            }
            j += 1;
        }
        proof {
            assert(i * m + m == (i + 1) * m) by (nonlinear_arith);
        }
        i += 1;
    }
    proof {
        assert(i * m == total) by (nonlinear_arith)
            requires
                i == prompts@.len(),
                m == comps@.len(),
                total == prompts@.len() * comps@.len(),
        ;
    }
    res
}

/// Merges a completed child into the prompt set by weaving every
/// (prompt, candidate) pair; the new prompt set is exactly the
/// deduplicated list of those weaves.
#[verifier::loop_isolation(false)]
pub fn merge_below_all_combs<L: LangServerCommands>(
    child: &CompNode,
    level: usize,
    prompts_set: &mut Vec<String>,
    ls: &L,
) -> (r: Result<(), LangServerError>)
    ensures
        r is Ok ==> final(prompts_set).deep_view() == dedup_strs(
            cross_weaves(
                *ls,
                old(prompts_set).deep_view(),
                child.completed.deep_view(),
                weave_level(level as nat),
            ),
        ),
        old(prompts_set)@.len() == 0 || child.completed@.len() == 0 ==> r is Ok,
{
    let ghost lvl = weave_level(level as nat);
    let ghost pr = prompts_set.deep_view();
    let ghost cs = child.completed.deep_view();
    let mut new_prompts: Vec<String> = Vec::new();
    let n = prompts_set.len();
    let m = child.completed.len();
    let mut i: usize = 0;
    proof {
        assert(pr.take(0int) =~= Seq::<Seq<char>>::empty());
    }
    while i < n
        invariant
            i <= n,
            n == prompts_set@.len(),
            m == child.completed@.len(),
            pr == prompts_set.deep_view(),
            cs == child.completed.deep_view(),
            new_prompts.deep_view() == dedup_strs(cross_weaves(*ls, pr.take(i as int), cs, lvl)),
        decreases n - i,
    {
        let mut j: usize = 0;
        proof {
            assert(cs.take(0int) =~= Seq::<Seq<char>>::empty());
            assert(cross_weaves(*ls, pr.take(i as int), cs, lvl) + row_weaves(
                *ls,
                pr[i as int],
                cs.take(0int),
                lvl,
            ) =~= cross_weaves(*ls, pr.take(i as int), cs, lvl));
        }
        while j < m
            invariant
                i < n,
                j <= m,
                n == prompts_set@.len(),
                m == child.completed@.len(),
                pr == prompts_set.deep_view(),
                cs == child.completed.deep_view(),
                new_prompts.deep_view() == dedup_strs(
                    cross_weaves(*ls, pr.take(i as int), cs, lvl) + row_weaves(
                        *ls,
                        pr[i as int],
                        cs.take(j as int),
                        lvl,
                    ),
                ),
            decreases m - j,
        {
            let lvl_arg: usize = if level >= 1 {
                1
            } else {
                0
            };
            let w = match ls.weave(
                prompts_set[i].as_str(),
                child.completed[j].as_str(),
                lvl_arg,
            ) {
                Ok(w) => w,
                Err(e) => {
                    return Err(e);
                },
            };
            let ghost cur = cross_weaves(*ls, pr.take(i as int), cs, lvl) + row_weaves(
                *ls,
                pr[i as int],
                cs.take(j as int),
                lvl,
            );
            proof {
                assert(w@ == ls.weave_spec(pr[i as int], cs[j as int], lvl));
                assert(cs.take(j + 1 as int).drop_last() =~= cs.take(j as int));
                assert(cs.take(j + 1 as int).last() == cs[j as int]);
                assert(cross_weaves(*ls, pr.take(i as int), cs, lvl) + row_weaves(
                    *ls,
                    pr[i as int],
                    cs.take(j + 1 as int),
                    lvl,
                ) =~= cur.push(w@));
                lemma_dedup_contains(cur, w@);
                assert(cur.push(w@).drop_last() =~= cur);
            }
            if !contains_string(&new_prompts, w.as_str()) {
                let ghost npp = new_prompts.deep_view();
                new_prompts.push(w);
                proof {
                    assert(new_prompts.deep_view() =~= npp.push(
                        ls.weave_spec(pr[i as int], cs[j as int], lvl),
                    ));
                }
            }
            j += 1;
        }
        proof {
            assert(cs.take(m as int) =~= cs);
            assert(pr.take(i + 1 as int).drop_last() =~= pr.take(i as int));
            assert(pr.take(i + 1 as int).last() == pr[i as int]);
            assert(cross_weaves(*ls, pr.take(i + 1 as int), cs, lvl) =~= cross_weaves(
                *ls,
                pr.take(i as int),
                cs,
                lvl,
            ) + row_weaves(*ls, pr[i as int], cs, lvl));
        }
        i += 1;
    }
    proof {
        assert(pr.take(n as int) =~= pr);
    }
    *prompts_set = new_prompts;
    Ok(())
}

/// Merges a completed child into the prompt set by weaving randomly
/// chosen pairs, biased towards early candidates, until the budget
/// `upper` is reached: every surviving prompt is a weave of one
/// original (prompt, candidate) pair, there are no duplicates and at
/// most `upper` of them, and the set only ends up empty if it had to.
#[verifier::loop_isolation(false)]
#[verifier::rlimit(100)]
pub fn merge_below_random_poisson<L: LangServerCommands, S: IndexSampler>(
    child: &CompNode,
    level: usize,
    upper: usize,
    prompts_set: &mut Vec<String>,
    ls: &L,
    sampler: &mut S,
) -> (r: Result<(), LangServerError>)
    ensures
        r is Ok ==> {
            &&& final(prompts_set).deep_view().len() <= upper
            &&& distinct_strs(final(prompts_set).deep_view())
            &&& forall|t: int|
                0 <= t < final(prompts_set).deep_view().len() ==> woven_from(
                    *ls,
                    old(prompts_set).deep_view(),
                    child.completed.deep_view(),
                    weave_level(level as nat),
                    #[trigger] final(prompts_set).deep_view()[t],
                )
            &&& (old(prompts_set)@.len() > 0 && child.completed@.len() > 0 && upper > 0)
                ==> final(prompts_set).deep_view().len() >= 1
        },
        upper == 0 || old(prompts_set)@.len() == 0 || child.completed@.len() == 0 ==> r is Ok,
{
    let ghost lvl = weave_level(level as nat);
    let ghost pr = prompts_set.deep_view();
    let ghost cs = child.completed.deep_view();
    let combs_upper: usize = if upper > usize::MAX / 5 {
        usize::MAX
    } else {
        upper * 5
    };
    let mut combs = all_combs(prompts_set, &child.completed, Some(combs_upper));
    let ghost combs0_len = combs@.len();
    proof {
        if prompts_set@.len() > 0 && child.completed@.len() > 0 && upper > 0 {
            assert(pr.len() * cs.len() >= 1) by (nonlinear_arith)
                requires
                    pr.len() >= 1,
                    cs.len() >= 1,
            ;
            assert(combs0_len >= 1);
        }
    }
    let mut new_prompts: Vec<String> = Vec::new();
    while new_prompts.len() < upper && combs.len() > 0
        invariant
            pr == prompts_set.deep_view(),
            cs == child.completed.deep_view(),
            new_prompts@.len() <= upper,
            distinct_strs(new_prompts.deep_view()),
            forall|k: int|
                0 <= k < combs@.len() ==> pr.contains((#[trigger] combs@[k]).0@) && cs.contains(
                    combs@[k].1@,
                ),
            forall|t: int|
                0 <= t < new_prompts.deep_view().len() ==> woven_from(
                    *ls,
                    pr,
                    cs,
                    lvl,
                    #[trigger] new_prompts.deep_view()[t],
                ),
            new_prompts@.len() > 0 || combs@.len() == combs0_len,
        decreases combs@.len(),
    {
        let mut idx = sampler.sample();
        if idx >= combs.len() {
            idx = combs.len() - 1;
        }
        let ghost combsp = combs@;
        let (prompt, comp) = combs.remove(idx);
        proof {
            assert(forall|k: int|
                0 <= k < combs@.len() ==> exists|k2: int|
                    0 <= k2 < combsp.len() && #[trigger] combs@[k] == combsp[k2]) by {
                assert(forall|k: int|
                    0 <= k < combs@.len() ==> combs@[k] == (if k < idx {
                        combsp[k]
                    } else {
                        combsp[k + 1]
                    }));
            };
        }
        let w = match ls.weave(
            prompt.as_str(),
            comp.as_str(),
            if level >= 1 {
                1
            } else {
                0
            },
        ) {
            Ok(w) => w,
            Err(e) => {
                return Err(e);
            },
        };
        proof {
            assert(prompt@ == combsp[idx as int].0@ && comp@ == combsp[idx as int].1@);
            assert(pr.contains(prompt@) && cs.contains(comp@));
            let pi = choose|pi: int| 0 <= pi < pr.len() && pr[pi] == prompt@;
            let ci = choose|ci: int| 0 <= ci < cs.len() && cs[ci] == comp@;
            assert(w@ == ls.weave_spec(pr[pi], cs[ci], lvl));
            assert(woven_from(*ls, pr, cs, lvl, w@));
        }
        if new_prompts.len() < upper && !contains_string(&new_prompts, w.as_str()) {
            let ghost wv = w@;
            let ghost npp = new_prompts.deep_view();
            new_prompts.push(w);
            proof {
                assert(new_prompts.deep_view().len() == npp.len() + 1);
                assert(forall|t: int|
                    0 <= t < npp.len() ==> #[trigger] new_prompts.deep_view()[t] == npp[t]);
                assert(new_prompts.deep_view()[npp.len() as int] == wv);
                assert(!npp.contains(wv));
                assert forall|a: int, b: int|
                    0 <= a < b < new_prompts.deep_view().len() implies new_prompts.deep_view()[a]
                    != new_prompts.deep_view()[b] by {
                    if b == npp.len() {
                        if new_prompts.deep_view()[a] == wv {
                            assert(npp[a] == wv);
                            assert(npp.contains(wv));
                        }
                    }
                }
                assert(woven_from(*ls, pr, cs, lvl, wv));
            }
        }
    }
    *prompts_set = new_prompts;
    Ok(())
}


/// The trees carried in a frontier of (tree, usages) pairs.
pub open spec fn pair_trees(s: Seq<(CodeBlockTree, String)>) -> Seq<CodeBlockTree> {
    s.map_values(|p: (CodeBlockTree, String)| p.0)
}

/// How many nodes a tree holds, itself included.
pub open spec fn tree_size(t: CodeBlockTree) -> nat
    decreases t,
{
    1 + forest_size(t.children@)
}

/// How many nodes a sequence of trees holds in all.
pub open spec fn forest_size(ts: Seq<CodeBlockTree>) -> nat
    decreases ts,
{
    if ts.len() == 0 {
        0
    } else {
        tree_size(ts[0]) + forest_size(ts.drop_first())
    }
}

proof fn lemma_forest_size_concat(a: Seq<CodeBlockTree>, b: Seq<CodeBlockTree>)
    ensures
        forest_size(a + b) == forest_size(a) + forest_size(b),
    decreases a.len(),
{
    if a.len() == 0 {
        assert(a + b =~= b);
    } else {
        assert((a + b)[0] == a[0]);
        assert((a + b).drop_first() =~= a.drop_first() + b);
        lemma_forest_size_concat(a.drop_first(), b);
        assert(forest_size(a + b) == tree_size((a + b)[0]) + forest_size((a + b).drop_first()));
    }
}

/// Every child index of every node of `lvl` lies below `n_next`.
pub open spec fn level_linked(lvl: CompLevel, n_next: int) -> bool {
    forall|j: int, k: int|
        0 <= j < lvl.nodes@.len() && 0 <= k < lvl.nodes@[j].children_idxs@.len() ==> (
        #[trigger] lvl.nodes@[j].children_idxs@[k]) < n_next
}

/// Every child index stored at level `d` points into level `d + 1`;
/// the deepest level stores none.
pub open spec fn wf_levels(levels: Seq<CompLevel>) -> bool {
    forall|d: int|
        0 <= d < levels.len() ==> level_linked(
            #[trigger] levels[d],
            if d + 1 < levels.len() {
                levels[d + 1].nodes@.len() as int
            } else {
                0
            },
        )
}

/// Every node of `lvl` has an empty completion list.
pub open spec fn level_uncompleted(lvl: CompLevel) -> bool {
    forall|j: int|
        0 <= j < lvl.nodes@.len() ==> (#[trigger] lvl.nodes@[j]).completed@.len() == 0
}



/// The children of every tree of `ts`, in order.
pub open spec fn forest_children(ts: Seq<CodeBlockTree>) -> Seq<CodeBlockTree>
    decreases ts.len(),
{
    if ts.len() == 0 {
        Seq::empty()
    } else {
        ts[0].children@ + forest_children(ts.drop_first())
    }
}

/// The trees sitting `d` levels below the given roots, left to right.
pub open spec fn forest_level(ts: Seq<CodeBlockTree>, d: nat) -> Seq<CodeBlockTree>
    decreases d,
{
    if d == 0 {
        ts
    } else {
        forest_level(forest_children(ts), (d - 1) as nat)
    }
}

proof fn lemma_forest_children_push(s: Seq<CodeBlockTree>, t: CodeBlockTree)
    ensures
        forest_children(s.push(t)) == forest_children(s) + t.children@,
    decreases s.len(),
{
    if s.len() == 0 {
        assert(s.push(t)[0] == t);
        assert(s.push(t).drop_first() =~= Seq::<CodeBlockTree>::empty());
        assert(forest_children(s.push(t)) == t.children@ + forest_children(
            Seq::<CodeBlockTree>::empty(),
        ));
        assert(forest_children(s.push(t)) =~= forest_children(s) + t.children@);
    } else {
        assert(s.push(t)[0] == s[0]);
        assert(s.push(t).drop_first() =~= s.drop_first().push(t));
        lemma_forest_children_push(s.drop_first(), t);
        assert(forest_children(s.push(t)) == s[0].children@ + (forest_children(s.drop_first())
            + t.children@));
        assert(forest_children(s.push(t)) =~= forest_children(s) + t.children@);
    }
}

proof fn lemma_forest_level_step(ts: Seq<CodeBlockTree>, d: nat)
    ensures
        forest_level(ts, d + 1) == forest_children(forest_level(ts, d)),
    decreases d,
{
    if d == 0 {
        assert(forest_level(ts, 1) == forest_level(forest_children(ts), 0));
        assert(forest_level(forest_children(ts), 0) == forest_children(ts));
        assert(forest_level(ts, 0) == ts);
    } else {
        lemma_forest_level_step(forest_children(ts), (d - 1) as nat);
        assert(forest_level(ts, d + 1) == forest_level(forest_children(ts), d));
        assert(forest_level(ts, d) == forest_level(forest_children(ts), (d - 1) as nat));
    }
}

/// The child indices a node at position `j` of a level whose trees are
/// `ts` must store: the next level places its children consecutively
/// after all children of the nodes before it.
pub open spec fn child_block(ts: Seq<CodeBlockTree>, j: int) -> Seq<usize> {
    Seq::new(
        ts[j].children@.len(),
        |i: int| (forest_children(ts.take(j)).len() + i) as usize,
    )
}

/// How many nodes all levels hold together.
pub open spec fn total_nodes(levels: Seq<CompLevel>) -> int
    decreases levels.len(),
{
    if levels.len() == 0 {
        0
    } else {
        total_nodes(levels.drop_last()) + levels.last().nodes@.len()
    }
}

impl CompletionLevels<NewState> {
    /// Flattens the block tree into breadth-first levels, extracting
    /// usages snippets for nested non-root nodes when enabled. The
    /// result is well formed: level zero holds exactly the root, every
    /// stored child index points into the next deeper level, and no
    /// node has been completed yet.
    #[verifier::loop_isolation(false)]
    #[verifier::rlimit(100)]
    pub fn prepare<L: LangServerCommands>(self, tree: CodeBlockTree, langserver: &L) -> (r: Result<
        CompletionLevels<PreparedState>,
        LangServerError,
    >)
        ensures
            r matches Ok(c) ==> {
                &&& wf_levels(c.levels@)
                &&& c.levels@.len() >= 1
                &&& c.levels@[0].nodes@.len() == 1
                &&& c.levels@[0].nodes@[0].name@ == tree.name@
                &&& c.levels@[0].nodes@[0].code@ == tree.code@
                &&& c.levels@[0].nodes@[0].usages@.len() == 0
                &&& forall|d: int|
                    0 <= d < c.levels@.len() ==> level_uncompleted(#[trigger] c.levels@[d])
                &&& forall|d: int|
                    0 <= d < c.levels@.len() ==> (#[trigger] c.levels@[d]).nodes@.len() > 0
                &&& forall|d: int, j: int|
                    0 <= d < c.levels@.len() && 0 <= j < c.levels@[d].nodes@.len() && (
                    !self.params.usages || crate::strutil::spec_has_topnode_prefix(
                        (#[trigger] c.levels@[d].nodes@[j]).name@,
                    )) ==> c.levels@[d].nodes@[j].usages@.len() == 0
                &&& total_nodes(c.levels@) == tree_size(tree)
                &&& forall|d: int|
                    0 <= d < c.levels@.len() ==> (#[trigger] c.levels@[d]).nodes@.len()
                        == forest_level(seq![tree], d as nat).len()
                &&& forall|d: int, j: int|
                    0 <= d < c.levels@.len() && 0 <= j < c.levels@[d].nodes@.len() ==> (
                    #[trigger] c.levels@[d].nodes@[j]).name@ == forest_level(
                        seq![tree],
                        d as nat,
                    )[j].name@ && c.levels@[d].nodes@[j].code@ == forest_level(
                        seq![tree],
                        d as nat,
                    )[j].code@ && c.levels@[d].nodes@[j].children_idxs@ == child_block(
                        forest_level(seq![tree], d as nat),
                        j,
                    )
                &&& (self.stats is None <==> c.stats is None)
                &&& self.stats matches Some(s0) ==> c.stats matches Some(s1) ==> {
                    &&& s1.num_nodes as int == (if s0.num_nodes + tree_size(tree) - 1
                        <= usize::MAX {
                        s0.num_nodes + tree_size(tree) - 1
                    } else {
                        usize::MAX as int
                    })
                    &&& s1.num_comps_per_node == s0.num_comps_per_node
                    &&& !self.params.usages ==> s1.num_usages_per_node == s0.num_usages_per_node
                }
                &&& c.params == self.params
            },
            !self.params.usages ==> r is Ok,
    {
        let ghost t0 = tree;
        let params = self.params;
        let mut stats = self.stats;
        let ghost stats0 = self.stats;
        let mut levels: Vec<CompLevel> = Vec::new();
        let mut frontier: Vec<(CodeBlockTree, String)> = Vec::new();
        frontier.push((tree, String::new()));
        proof {
            assert(pair_trees(frontier@) =~= seq![t0]);
            assert(forest_size(seq![t0]) == tree_size(t0)) by {
                assert(seq![t0].drop_first() =~= Seq::<CodeBlockTree>::empty());
                assert(forest_size(Seq::<CodeBlockTree>::empty()) == 0);
            };
            assert(total_nodes(levels@) == 0);
        }
        while frontier.len() > 0
            invariant
                levels@.len() == 0 ==> frontier@.len() == 1 && frontier@[0].0 == t0
                    && frontier@[0].1@.len() == 0,
                levels@.len() > 0 ==> levels@[0].nodes@.len() == 1 && levels@[0].nodes@[0].name@
                    == t0.name@ && levels@[0].nodes@[0].code@ == t0.code@
                    && levels@[0].nodes@[0].usages@.len() == 0,
                forall|d: int|
                    0 <= d < levels@.len() - 1 ==> level_linked(
                        #[trigger] levels@[d],
                        levels@[d + 1].nodes@.len() as int,
                    ),
                levels@.len() > 0 ==> level_linked(
                    levels@[levels@.len() - 1],
                    frontier@.len() as int,
                ),
                forall|d: int| 0 <= d < levels@.len() ==> level_uncompleted(#[trigger] levels@[d]),
                forall|d: int| 0 <= d < levels@.len() ==> (#[trigger] levels@[d]).nodes@.len() > 0,
                forall|d: int, j: int|
                    0 <= d < levels@.len() && 0 <= j < levels@[d].nodes@.len() && (!params.usages
                        || crate::strutil::spec_has_topnode_prefix(
                        (#[trigger] levels@[d].nodes@[j]).name@,
                    )) ==> levels@[d].nodes@[j].usages@.len() == 0,
                forall|x: int|
                    0 <= x < frontier@.len() && (!params.usages
                        || crate::strutil::spec_has_topnode_prefix(
                        (#[trigger] frontier@[x]).0.name@,
                    )) ==> frontier@[x].1@.len() == 0,
                total_nodes(levels@) + forest_size(pair_trees(frontier@)) == tree_size(t0),
                pair_trees(frontier@) == forest_level(seq![t0], levels@.len() as nat),
                forall|d: int|
                    0 <= d < levels@.len() ==> (#[trigger] levels@[d]).nodes@.len()
                        == forest_level(seq![t0], d as nat).len(),
                forall|d: int, j: int|
                    0 <= d < levels@.len() && 0 <= j < levels@[d].nodes@.len() ==> (
                    #[trigger] levels@[d].nodes@[j]).name@ == forest_level(
                        seq![t0],
                        d as nat,
                    )[j].name@ && levels@[d].nodes@[j].code@ == forest_level(
                        seq![t0],
                        d as nat,
                    )[j].code@ && levels@[d].nodes@[j].children_idxs@ == child_block(
                        forest_level(seq![t0], d as nat),
                        j,
                    ),
                stats0 is None <==> stats is None,
                stats0 matches Some(s0) ==> stats matches Some(st) ==> {
                    &&& st.num_nodes as int == (if s0.num_nodes + (total_nodes(levels@)
                        + frontier@.len() - 1) <= usize::MAX {
                        s0.num_nodes + (total_nodes(levels@) + frontier@.len() - 1)
                    } else {
                        usize::MAX as int
                    })
                    &&& st.num_comps_per_node == s0.num_comps_per_node
                    &&& !params.usages ==> st.num_usages_per_node == s0.num_usages_per_node
                },
            decreases forest_size(pair_trees(frontier@)),
        {
            let ghost f0 = frontier@;
            let ghost size0 = forest_size(pair_trees(f0));
            let mut nodes: Vec<CompNode> = Vec::new();
            let mut next: Vec<(CodeBlockTree, String)> = Vec::new();
            proof {
                assert(pair_trees(next@) =~= Seq::<CodeBlockTree>::empty());
                assert(frontier@ =~= f0.skip(0));
                assert(f0.take(0) =~= Seq::<(CodeBlockTree, String)>::empty());
                assert(pair_trees(f0.take(0)) =~= Seq::<CodeBlockTree>::empty());
                assert(forest_children(Seq::<CodeBlockTree>::empty())
                    =~= Seq::<CodeBlockTree>::empty());
            }
            while frontier.len() > 0
                invariant
                    nodes@.len() + frontier@.len() == f0.len(),
                    frontier@ =~= f0.skip(nodes@.len() as int),
                    forest_size(pair_trees(next@)) + forest_size(pair_trees(frontier@))
                        + nodes@.len() == size0,
                    forall|j: int, k: int|
                        0 <= j < nodes@.len() && 0 <= k
                            < nodes@[j].children_idxs@.len() ==> (#[trigger] nodes@[j].children_idxs@[k])
                            < next@.len(),
                    forall|j: int|
                        0 <= j < nodes@.len() ==> (#[trigger] nodes@[j]).completed@.len() == 0,
                    levels@.len() == 0 ==> (forall|j: int|
                        0 <= j < nodes@.len() ==> (#[trigger] nodes@[j]).name@ == t0.name@
                            && nodes@[j].code@ == t0.code@ && nodes@[j].usages@.len() == 0),
                    forall|j: int|
                        0 <= j < nodes@.len() ==> (#[trigger] nodes@[j]).name@ == f0[j].0.name@
                            && nodes@[j].code@ == f0[j].0.code@ && nodes@[j].children_idxs@
                            == child_block(pair_trees(f0), j),
                    forall|j: int|
                        0 <= j < nodes@.len() && (!params.usages
                            || crate::strutil::spec_has_topnode_prefix(
                            (#[trigger] nodes@[j]).name@,
                        )) ==> nodes@[j].usages@.len() == 0,
                    forall|x: int|
                        0 <= x < next@.len() && (!params.usages
                            || crate::strutil::spec_has_topnode_prefix(
                            (#[trigger] next@[x]).0.name@,
                        )) ==> next@[x].1@.len() == 0,
                    pair_trees(next@) == forest_children(pair_trees(f0.take(nodes@.len() as int))),
                    stats0 is None <==> stats is None,
                    stats0 matches Some(s0) ==> stats matches Some(st) ==> {
                        &&& st.num_nodes as int == (if s0.num_nodes + (total_nodes(levels@)
                            + nodes@.len() + next@.len() + frontier@.len() - 1) <= usize::MAX {
                            s0.num_nodes + (total_nodes(levels@) + nodes@.len() + next@.len()
                                + frontier@.len() - 1)
                        } else {
                            usize::MAX as int
                        })
                        &&& st.num_comps_per_node == s0.num_comps_per_node
                        &&& !params.usages ==> st.num_usages_per_node == s0.num_usages_per_node
                    },
                decreases frontier@.len(),
            {
                let ghost fr0 = frontier@;
                let (t, us) = frontier.remove(0);
                proof {
                    assert(frontier@ =~= fr0.drop_first());
                    assert(pair_trees(fr0)[0] == t);
                    assert(pair_trees(frontier@) =~= pair_trees(fr0).drop_first());
                    assert(forest_size(pair_trees(fr0)) == tree_size(t) + forest_size(
                        pair_trees(frontier@),
                    ));
                    assert(frontier@ =~= f0.skip(nodes@.len() as int + 1));
                }
                let ghost tg = t;
                let CodeBlockTree { name, code, children } = t;
                let mut children = children;
                let mut idxs: Vec<usize> = Vec::new();
                let ghost mid0 = forest_size(pair_trees(next@)) + forest_size(children@);
                let ghost chbase = pair_trees(next@);
                let ghost ch_all = children@;
                proof {
                    assert(tree_size(tg) == 1 + forest_size(children@));
                    assert(chbase + ch_all.take(0) =~= chbase);
                    assert(children@ =~= ch_all.skip(0));
                }
                while children.len() > 0
                    invariant
                        forest_size(pair_trees(next@)) + forest_size(children@) == mid0,
                        next@.len() == chbase.len() + (ch_all.len() - children@.len()),
                        idxs@.len() == ch_all.len() - children@.len(),
                        stats0 is None <==> stats is None,
                        stats0 matches Some(s0) ==> stats matches Some(st) ==> {
                            &&& st.num_nodes as int == (if s0.num_nodes + (total_nodes(levels@)
                                + nodes@.len() + next@.len() + 1 + frontier@.len() - 1)
                                <= usize::MAX {
                                s0.num_nodes + (total_nodes(levels@) + nodes@.len() + next@.len()
                                    + 1 + frontier@.len() - 1)
                            } else {
                                usize::MAX as int
                            })
                            &&& st.num_comps_per_node == s0.num_comps_per_node
                            &&& !params.usages ==> st.num_usages_per_node
                                == s0.num_usages_per_node
                        },
                        forall|x: int|
                            0 <= x < idxs@.len() ==> (#[trigger] idxs@[x]) as int == chbase.len()
                                + x,
                        forall|x: int|
                            0 <= x < next@.len() && (!params.usages
                                || crate::strutil::spec_has_topnode_prefix(
                                (#[trigger] next@[x]).0.name@,
                            )) ==> next@[x].1@.len() == 0,
                        ch_all.len() >= children@.len(),
                        children@ =~= ch_all.skip(ch_all.len() - children@.len()),
                        pair_trees(next@) == chbase + ch_all.take(
                            ch_all.len() - children@.len(),
                        ),
                        forall|k: int| 0 <= k < idxs@.len() ==> (#[trigger] idxs@[k]) < next@.len(),
                        forall|j: int, k: int|
                            0 <= j < nodes@.len() && 0 <= k
                                < nodes@[j].children_idxs@.len() ==> (#[trigger] nodes@[j].children_idxs@[k])
                                < next@.len(),
                    decreases children@.len(),
                {
                    let ghost ch0 = children@;
                    let ghost consumed = ch_all.len() - ch0.len();
                    let child = children.remove(0);
                    proof {
                        assert(children@ =~= ch0.drop_first());
                        assert(forest_size(ch0) == tree_size(child) + forest_size(children@));
                        assert(child == ch_all[consumed as int]) by {
                            assert(ch0 =~= ch_all.skip(consumed as int));
                        };
                        assert(children@ =~= ch_all.skip(consumed + 1));
                    }
                    let idx = next.len();
                    idxs.push(idx);
                    stats = crate::stats::increase_node_count(stats);
                    let child_usages: String = if params.usages && !crate::strutil::has_topnode_prefix(
                        child.name.as_str(),
                    ) {
                        match langserver.usages(code.as_str(), child.code.as_str()) {
                            Ok(u) => {
                                stats = crate::stats::insert_usages(
                                    stats,
                                    child.name.as_str(),
                                    u.1,
                                );
                                u.0
                            },
                            Err(e) => {
                                return Err(e);
                            },
                        }
                    } else {
                        String::new()
                    };
                    let ghost nx0 = next@;
                    let ghost childg = child;
                    next.push((child, child_usages));
                    proof {
                        assert(next@.len() == nx0.len() + 1);
                        assert(forall|x: int| 0 <= x < nx0.len() ==> #[trigger] next@[x] == nx0[x]);
                        assert(next@[nx0.len() as int].0 == childg);
                        assert(forall|x: int|
                            0 <= x < nx0.len() ==> #[trigger] pair_trees(next@)[x] == pair_trees(
                                nx0,
                            )[x]);
                        assert(pair_trees(next@)[nx0.len() as int] == childg);
                        assert(pair_trees(next@) =~= pair_trees(nx0) + seq![childg]);
                        lemma_forest_size_concat(pair_trees(nx0), seq![childg]);
                        assert(seq![childg].drop_first() =~= Seq::<CodeBlockTree>::empty());
                        assert(forest_size(Seq::<CodeBlockTree>::empty()) == 0);
                        assert(seq![childg][0] == childg);
                        assert(forest_size(seq![childg]) == tree_size(childg));
                        assert(ch_all.take(consumed + 1) =~= ch_all.take(consumed as int).push(
                            childg,
                        ));
                        assert(pair_trees(next@) =~= chbase + ch_all.take(consumed + 1));
                    }
                }
                proof {
                    assert(forest_size(children@) == 0);
                    assert(ch_all.take(ch_all.len() as int) =~= ch_all);
                    assert(pair_trees(next@) == chbase + ch_all);
                    assert(tg == f0[nodes@.len() as int].0) by {
                        assert(fr0 =~= f0.skip(nodes@.len() as int));
                    };
                    assert(ch_all == tg.children@);
                    assert(pair_trees(f0.take(nodes@.len() as int + 1)) =~= pair_trees(
                        f0.take(nodes@.len() as int),
                    ).push(tg));
                    lemma_forest_children_push(pair_trees(f0.take(nodes@.len() as int)), tg);
                    assert(pair_trees(next@) =~= forest_children(
                        pair_trees(f0.take(nodes@.len() as int + 1)),
                    ));
                }
                let ghost nodesp = nodes@;
                nodes.push(
                    CompNode { children_idxs: idxs, name, code, completed: Vec::new(), usages: us },
                );
                proof {
                    assert(forall|j: int| 0 <= j < nodesp.len() ==> #[trigger] nodes@[j] == nodesp[j]);
                    if levels@.len() == 0 {
                        assert(fr0[0] == f0[nodes@.len() - 1]);
                    }
                    assert(nodes@[nodes@.len() - 1].name@ == tg.name@);
                    assert(nodes@[nodes@.len() - 1].code@ == tg.code@);
                    assert(tg == f0[nodes@.len() - 1].0);
                    assert(nodes@[nodes@.len() - 1].usages@ == f0[nodes@.len() - 1].1@) by {
                        assert(fr0[0] == f0[nodes@.len() - 1]);
                    };
                    assert(nodes@[nodes@.len() - 1].children_idxs@ == child_block(
                        pair_trees(f0),
                        nodes@.len() - 1,
                    )) by {
                        let j = nodes@.len() - 1;
                        assert(pair_trees(f0)[j] == tg);
                        assert(pair_trees(f0).take(j) =~= pair_trees(f0.take(j)));
                        assert(chbase == forest_children(pair_trees(f0.take(j))));
                        assert(nodes@[j].children_idxs@ =~= child_block(pair_trees(f0), j));
                    };
                    if !params.usages || crate::strutil::spec_has_topnode_prefix(tg.name@) {
                        assert(f0[nodes@.len() - 1].0.name@ == tg.name@);
                        assert(f0[nodes@.len() - 1].1@.len() == 0);
                        assert(nodes@[nodes@.len() - 1].usages@.len() == 0);
                    }
                }
            }
            proof {
                assert(forest_size(pair_trees(frontier@)) == 0);
                assert(forest_size(pair_trees(next@)) + nodes@.len() == size0);
                assert(f0.len() >= 1);
                assert(frontier@.len() == 0);
                assert(nodes@.len() == f0.len());
            }
            let ghost levels0 = levels@;
            let ghost nodesg = nodes@;
            levels.push(CompLevel { nodes });
            frontier = next;
            proof {
                assert(levels@.len() == levels0.len() + 1);
                assert(forall|d: int| 0 <= d < levels0.len() ==> levels@[d] == levels0[d]);
                assert(levels@[levels@.len() - 1].nodes@ == nodesg);
                assert(levels@[levels@.len() - 1].nodes@.len() == f0.len());
                assert(levels@.drop_last() =~= levels0);
                assert(total_nodes(levels@) == total_nodes(levels0) + f0.len());
                assert(pair_trees(f0.take(f0.len() as int)) =~= pair_trees(f0));
                assert(pair_trees(frontier@) == forest_children(pair_trees(f0)));
                lemma_forest_level_step(seq![t0], levels0.len() as nat);
                assert(pair_trees(frontier@) == forest_level(seq![t0], levels@.len() as nat));
                assert(forall|j: int|
                    0 <= j < f0.len() ==> #[trigger] pair_trees(f0)[j] == f0[j].0);
                assert(forall|j: int|
                    0 <= j < nodesg.len() ==> (#[trigger] nodesg[j]).name@ == forest_level(
                        seq![t0],
                        levels0.len() as nat,
                    )[j].name@ && nodesg[j].code@ == forest_level(
                        seq![t0],
                        levels0.len() as nat,
                    )[j].code@);
            }
        }
        proof {
            let ghost lv = levels@;
            assert(wf_levels(lv)) by {
                assert forall|d: int|
                    0 <= d < lv.len() implies level_linked(
                    #[trigger] lv[d],
                    if d + 1 < lv.len() {
                        lv[d + 1].nodes@.len() as int
                    } else {
                        0
                    },
                ) by {
                    if d == lv.len() - 1 {
                        assert(level_linked(lv[lv.len() - 1], frontier@.len() as int));
                        assert(frontier@.len() == 0);
                    } else {
                        assert(level_linked(lv[d], lv[d + 1].nodes@.len() as int));
                    }
                }
            };
        }
        Ok(CompletionLevels { levels, params, stats, state: core::marker::PhantomData })
    }
}


/// Some weave of the analyzer produced `x`.
pub open spec fn is_woven<L: LangServerCommands>(ls: L, x: Seq<char>) -> bool {
    exists|o: Seq<char>, n: Seq<char>, l: nat| x == ls.weave_spec(o, n, l)
}

/// `x` arises from `base` by weaving in one candidate of each child
/// list in turn: with no children `x` is `base` itself, otherwise `x`
/// is a weave of a text derived from the earlier children with some
/// candidate of the last child.
pub open spec fn derived_prompt<L: LangServerCommands>(
    ls: L,
    base: Seq<char>,
    children: Seq<Seq<Seq<char>>>,
    lvl: nat,
    x: Seq<char>,
) -> bool
    decreases children.len(),
{
    if children.len() == 0 {
        x == base
    } else {
        exists|p: Seq<char>, ci: int|
            0 <= ci < children.last().len() && derived_prompt(
                ls,
                base,
                children.drop_last(),
                lvl,
                p,
            ) && x == ls.weave_spec(p, children.last()[ci], lvl)
    }
}

/// The completed candidate lists of the children that `idxs` picks
/// out of `prev`, in order.
pub open spec fn picked_completed(prev: Seq<CompNode>, idxs: Seq<usize>) -> Seq<Seq<Seq<char>>> {
    Seq::new(idxs.len(), |i: int| prev[idxs[i] as int].completed.deep_view())
}

/// Every entry of the woven cross product comes from one (prompt,
/// candidate) pair of the given lists.
proof fn lemma_cross_woven<L: LangServerCommands>(
    ls: L,
    pr: Seq<Seq<char>>,
    cs: Seq<Seq<char>>,
    lvl: nat,
)
    ensures
        forall|t: int|
            0 <= t < cross_weaves(ls, pr, cs, lvl).len() ==> woven_from(
                ls,
                pr,
                cs,
                lvl,
                #[trigger] cross_weaves(ls, pr, cs, lvl)[t],
            ),
    decreases pr.len(),
{
    if pr.len() > 0 {
        lemma_cross_woven(ls, pr.drop_last(), cs, lvl);
        let head = cross_weaves(ls, pr.drop_last(), cs, lvl);
        let row = row_weaves(ls, pr.last(), cs, lvl);
        assert(cross_weaves(ls, pr, cs, lvl) == head + row);
        lemma_row_woven(ls, pr, cs, lvl, cs.len() as int);
        assert(cs.take(cs.len() as int) =~= cs);
        assert forall|t: int|
            0 <= t < cross_weaves(ls, pr, cs, lvl).len() implies woven_from(
            ls,
            pr,
            cs,
            lvl,
            #[trigger] cross_weaves(ls, pr, cs, lvl)[t],
        ) by {
            if t < head.len() {
                assert(cross_weaves(ls, pr, cs, lvl)[t] == head[t]);
                assert(woven_from(ls, pr.drop_last(), cs, lvl, head[t]));
                let pi = choose|pi: int, ci: int|
                    0 <= pi < pr.drop_last().len() && 0 <= ci < cs.len() && head[t]
                        == ls.weave_spec(pr.drop_last()[pi], cs[ci], lvl);
                assert(woven_from(ls, pr, cs, lvl, head[t]));
            } else {
                assert(cross_weaves(ls, pr, cs, lvl)[t] == row[t - head.len()]);
            }
        }
    }
}

/// Every entry of one weave row pairs the row prompt with one candidate.
proof fn lemma_row_woven<L: LangServerCommands>(
    ls: L,
    pr: Seq<Seq<char>>,
    cs: Seq<Seq<char>>,
    lvl: nat,
    hi: int,
)
    requires
        pr.len() > 0,
        0 <= hi <= cs.len(),
    ensures
        forall|t: int|
            0 <= t < row_weaves(ls, pr.last(), cs.take(hi), lvl).len() ==> woven_from(
                ls,
                pr,
                cs,
                lvl,
                #[trigger] row_weaves(ls, pr.last(), cs.take(hi), lvl)[t],
            ),
    decreases hi,
{
    if hi > 0 {
        lemma_row_woven(ls, pr, cs, lvl, hi - 1);
        assert(cs.take(hi).drop_last() =~= cs.take(hi - 1));
        let row = row_weaves(ls, pr.last(), cs.take(hi), lvl);
        assert(row == row_weaves(ls, pr.last(), cs.take(hi - 1), lvl).push(
            ls.weave_spec(pr.last(), cs.take(hi).last(), lvl),
        ));
        assert forall|t: int| 0 <= t < row.len() implies woven_from(
            ls,
            pr,
            cs,
            lvl,
            #[trigger] row[t],
        ) by {
            if t < row.len() - 1 {
                assert(row[t] == row_weaves(ls, pr.last(), cs.take(hi - 1), lvl)[t]);
            } else {
                assert(row[t] == ls.weave_spec(pr[pr.len() - 1], cs[hi - 1], lvl));
            }
        }
    } else {
        assert(cs.take(0) =~= Seq::<Seq<char>>::empty());
    }
}

/// Copies a vector of indices.
fn copy_idxs(v: &Vec<usize>) -> (r: Vec<usize>)
    ensures
        r@ == v@,
{
    let mut r: Vec<usize> = Vec::new();
    let mut i: usize = 0;
    while i < v.len()
        invariant
            i <= v@.len(),
            r@ =~= v@.take(i as int),
        decreases v@.len() - i,
    {
        r.push(v[i]);
        proof {
            assert(r@ =~= v@.take(i + 1 as int));
        }
        i += 1;
    }
    proof {
        assert(r@ =~= v@);
    }
    r
}

/// Copies a vector of strings.
fn copy_strings(v: &Vec<String>) -> (r: Vec<String>)
    ensures
        r.deep_view() == v.deep_view(),
        r@.len() == v@.len(),
{
    let mut r: Vec<String> = Vec::new();
    let mut i: usize = 0;
    while i < v.len()
        invariant
            i <= v@.len(),
            r@.len() == i,
            forall|j: int| 0 <= j < i ==> #[trigger] r.deep_view()[j] == v.deep_view()[j],
        decreases v@.len() - i,
    {
        let ghost rp = r@;
        let ghost dv = r.deep_view();
        r.push(v[i].clone());
        proof {
            assert(r.deep_view()[i as int] == v.deep_view()[i as int]);
            assert(forall|j: int| 0 <= j < i ==> r@[j] == rp[j]);
            assert(forall|j: int| 0 <= j < i ==> #[trigger] r.deep_view()[j] == dv[j]);
        }
        i += 1;
    }
    proof {
        assert(r.deep_view() =~= v.deep_view());
    }
    r
}

/// The fields that completion must not touch agree between two nodes.
pub open spec fn node_shape_eq(a: CompNode, b: CompNode) -> bool {
    &&& a.name@ == b.name@
    &&& a.code@ == b.code@
    &&& a.children_idxs@ == b.children_idxs@
    &&& a.usages@ == b.usages@
}

/// Those fields agree node for node between two levels.
pub open spec fn level_shape_eq(a: CompLevel, b: CompLevel) -> bool {
    &&& a.nodes@.len() == b.nodes@.len()
    &&& forall|j: int|
        0 <= j < a.nodes@.len() ==> node_shape_eq(#[trigger] a.nodes@[j], b.nodes@[j])
}

/// Copies a node, substituting the given completion list.
fn node_with_completed(node: &CompNode, completed: Vec<String>) -> (r: CompNode)
    ensures
        node_shape_eq(r, *node),
        r.completed == completed,
{
    CompNode {
        children_idxs: copy_idxs(&node.children_idxs),
        name: node.name.clone(),
        code: node.code.clone(),
        completed,
        usages: node.usages.clone(),
    }
}

/// Copies a vector of nodes.
fn clone_nodes(v: &Vec<CompNode>) -> (r: Vec<CompNode>)
    ensures
        r@.len() == v@.len(),
        forall|x: int|
            0 <= x < v@.len() ==> node_shape_eq(#[trigger] r@[x], v@[x])
                && r@[x].completed.deep_view() == v@[x].completed.deep_view(),
{
    let mut r: Vec<CompNode> = Vec::new();
    let mut i: usize = 0;
    while i < v.len()
        invariant
            i <= v@.len(),
            r@.len() == i,
            forall|x: int|
                0 <= x < i ==> node_shape_eq(#[trigger] r@[x], v@[x])
                    && r@[x].completed.deep_view() == v@[x].completed.deep_view(),
        decreases v@.len() - i,
    {
        r.push(node_with_completed(&v[i], copy_strings(&v[i].completed)));
        i += 1;
    }
    r
}

/// Inserts a string unless it is already present, keeping the list
/// free of duplicates.
fn insert_unique(v: &mut Vec<String>, s: String)
    requires
        distinct_strs(old(v).deep_view()),
    ensures
        distinct_strs(final(v).deep_view()),
        final(v).deep_view() == (if old(v).deep_view().contains(s@) {
            old(v).deep_view()
        } else {
            old(v).deep_view().push(s@)
        }),
{
    if !contains_string(v, s.as_str()) {
        let ghost vp = v.deep_view();
        let ghost sv = s@;
        v.push(s);
        proof {
            assert(v.deep_view().len() == vp.len() + 1);
            assert(forall|t: int| 0 <= t < vp.len() ==> #[trigger] v.deep_view()[t] == vp[t]);
            assert(v.deep_view()[vp.len() as int] == sv);
            assert(v.deep_view() =~= vp.push(sv));
            assert forall|a: int, b: int|
                0 <= a < b < v.deep_view().len() implies v.deep_view()[a] != v.deep_view()[b] by {
                if b == vp.len() {
                    if v.deep_view()[a] == sv {
                        assert(vp[a] == sv);
                        assert(vp.contains(sv));
                    }
                }
            }
        }
    } else {
        proof {
            assert(v.deep_view() =~= old(v).deep_view());
        }
    }
}

/// Completes one node: merges its children into the prompt set and, at
/// any level but the root, asks the engine for candidates for each
/// prompt and weaves them back. The root keeps its merged prompts.
#[verifier::loop_isolation(false)]
pub fn complete_node<L: LangServerCommands, E: CompletionEngine, S: IndexSampler>(
    params: &HyperParams,
    ls: &L,
    engine: &mut E,
    sampler: &mut S,
    level: usize,
    prev_level: &Vec<CompNode>,
    node: &CompNode,
) -> (r: Result<Vec<String>, LangServerError>)
    requires
        forall|k: int|
            0 <= k < node.children_idxs@.len() ==> (#[trigger] node.children_idxs@[k])
                < prev_level@.len(),
    ensures
        r matches Ok(comps) ==> {
            &&& distinct_strs(comps.deep_view())
            &&& (level == 0 && node.children_idxs@.len() == 0) ==> comps.deep_view() == seq![
                node.code@,
            ]
            &&& (level == 0 && node.children_idxs@.len() > 0) ==> forall|t: int|
                0 <= t < comps.deep_view().len() ==> is_woven(
                    *ls,
                    #[trigger] comps.deep_view()[t],
                )
            &&& (level == 0 && node.children_idxs@.len() > 0) ==> forall|t: int|
                0 <= t < comps.deep_view().len() ==> derived_prompt(
                    *ls,
                    node.code@,
                    picked_completed(prev_level@, node.children_idxs@),
                    weave_level(level as nat),
                    #[trigger] comps.deep_view()[t],
                )
        },
        level == 0 && node.children_idxs@.len() == 0 ==> r is Ok,
{
    let mut prompts: Vec<String> = Vec::new();
    prompts.push(node.code.clone());
    proof {
        assert(prompts.deep_view() =~= seq![node.code@]);
    }
    let num_children = node.children_idxs.len();
    if num_children > 0 {
        let stop_at: usize = if params.stop_at > num_children {
            params.stop_at
        } else {
            num_children
        };
        let dist = distribute_stop_at(stop_at, num_children);
        let ghost childseq = picked_completed(prev_level@, node.children_idxs@);
        proof {
            assert(childseq.take(0int) =~= Seq::<Seq<Seq<char>>>::empty());
        }
        let mut ci: usize = 0;
        while ci < num_children
            invariant
                ci <= num_children,
                num_children == node.children_idxs@.len(),
                dist@.len() == num_children,
                distinct_strs(prompts.deep_view()),
                childseq == picked_completed(prev_level@, node.children_idxs@),
                forall|t: int|
                    0 <= t < prompts.deep_view().len() ==> derived_prompt(
                        *ls,
                        node.code@,
                        childseq.take(ci as int),
                        weave_level(level as nat),
                        #[trigger] prompts.deep_view()[t],
                    ),
                ci >= 1 ==> forall|t: int|
                    0 <= t < prompts.deep_view().len() ==> is_woven(
                        *ls,
                        #[trigger] prompts.deep_view()[t],
                    ),
            decreases num_children - ci,
        {
            let child_idx = node.children_idxs[ci];
            let child = &prev_level[child_idx];
            let upper = dist[ci];
            let combs = count_all_possible_combs(child, prompts.len());
            let ghost pr0 = prompts.deep_view();
            if combs > upper {
                match merge_below_random_poisson(child, level, upper, &mut prompts, ls, sampler) {
                    Ok(u) => u,
                    Err(e) => {
                        return Err(e);
                    },
                };
                proof {
                    let lvl = weave_level(level as nat);
                    assert(childseq.take(ci as int + 1).drop_last() =~= childseq.take(ci as int));
                    assert(childseq.take(ci as int + 1).last() == childseq[ci as int]);
                    assert(childseq[ci as int] == child.completed.deep_view());
                    assert forall|t: int| 0 <= t < prompts.deep_view().len() implies is_woven(
                        *ls,
                        #[trigger] prompts.deep_view()[t],
                    ) && derived_prompt(
                        *ls,
                        node.code@,
                        childseq.take(ci as int + 1),
                        lvl,
                        prompts.deep_view()[t],
                    ) by {
                        assert(woven_from(
                            *ls,
                            pr0,
                            child.completed.deep_view(),
                            lvl,
                            prompts.deep_view()[t],
                        ));
                        let (pi, cx) = choose|pi: int, cx: int|
                            0 <= pi < pr0.len() && 0 <= cx < child.completed.deep_view().len()
                                && prompts.deep_view()[t] == ls.weave_spec(
                                pr0[pi],
                                child.completed.deep_view()[cx],
                                lvl,
                            );
                        assert(derived_prompt(*ls, node.code@, childseq.take(ci as int), lvl, pr0[pi]));
                        assert(derived_prompt(
                            *ls,
                            node.code@,
                            childseq.take(ci as int + 1),
                            lvl,
                            prompts.deep_view()[t],
                        ));
                    }
                }
            } else {
                match merge_below_all_combs(child, level, &mut prompts, ls) {
                    Ok(u) => u,
                    Err(e) => {
                        return Err(e);
                    },
                };
                proof {
                    let lvl = weave_level(level as nat);
                    let cw = cross_weaves(*ls, pr0, child.completed.deep_view(), lvl);
                    lemma_dedup_distinct(cw);
                    lemma_cross_woven(*ls, pr0, child.completed.deep_view(), lvl);
                    assert(childseq.take(ci as int + 1).drop_last() =~= childseq.take(ci as int));
                    assert(childseq.take(ci as int + 1).last() == childseq[ci as int]);
                    assert(childseq[ci as int] == child.completed.deep_view());
                    assert forall|t: int| 0 <= t < prompts.deep_view().len() implies is_woven(
                        *ls,
                        #[trigger] prompts.deep_view()[t],
                    ) && derived_prompt(
                        *ls,
                        node.code@,
                        childseq.take(ci as int + 1),
                        lvl,
                        prompts.deep_view()[t],
                    ) by {
                        lemma_dedup_contains(cw, prompts.deep_view()[t]);
                        assert(cw.contains(prompts.deep_view()[t]));
                        let u = choose|u: int| 0 <= u < cw.len() && cw[u] == prompts.deep_view()[t];
                        assert(woven_from(
                            *ls,
                            pr0,
                            child.completed.deep_view(),
                            lvl,
                            cw[u],
                        ));
                        let (pi, cx) = choose|pi: int, cx: int|
                            0 <= pi < pr0.len() && 0 <= cx < child.completed.deep_view().len()
                                && cw[u] == ls.weave_spec(pr0[pi], child.completed.deep_view()[cx], lvl);
                        assert(derived_prompt(*ls, node.code@, childseq.take(ci as int), lvl, pr0[pi]));
                        assert(derived_prompt(
                            *ls,
                            node.code@,
                            childseq.take(ci as int + 1),
                            lvl,
                            prompts.deep_view()[t],
                        ));
                    }
                }
            }
            ci += 1;
        }
        proof {
            assert(childseq.take(num_children as int) =~= childseq);
        }
    }
    if level > 0 {
        let mut whitelist: Vec<CheckProblem> = Vec::new();
        whitelist.push(CheckProblem::ChangedComments);
        let mut new_comps: Vec<String> = Vec::new();
        let mut pi: usize = 0;
        while pi < prompts.len()
            invariant
                pi <= prompts@.len(),
                distinct_strs(new_comps.deep_view()),
            decreases prompts@.len() - pi,
        {
            let stubbed: String = if params.stub {
                match ls.stub(prompts[pi].as_str()) {
                    Ok(s) => s,
                    Err(e) => {
                        return Err(e);
                    },
                }
            } else {
                prompts[pi].clone()
            };
            let printed0 = match ls.pretty_print(stubbed.as_str(), "_hole_", &params.types) {
                Ok(p) => p,
                Err(e) => {
                    return Err(e);
                },
            };
            let printed: String = if node.usages.as_str().unicode_len() > 0 {
                let mut buf: Vec<char> = Vec::new();
                crate::strutil::push_str_chars(&mut buf, node.usages.as_str());
                buf.push('\n');
                crate::strutil::push_str_chars(&mut buf, printed0.as_str());
                crate::strutil::chars_to_string(&buf)
            } else {
                printed0
            };
            let q = CompletionQueryBuilder::new(printed).num_comps(params.num_comps).retries(
                params.retries,
            ).fallback(params.fallback).problem_whitelist(whitelist.clone()).build();
            match retry_query_until_ok(engine, &q) {
                Some(cands) => {
                    let mut ki: usize = 0;
                    while ki < cands.len()
                        invariant
                            ki <= cands@.len(),
                            pi < prompts@.len(),
                            distinct_strs(new_comps.deep_view()),
                        decreases cands@.len() - ki,
                    {
                        let rewoven = match ls.weave(
                            prompts[pi].as_str(),
                            cands[ki].code.as_str(),
                            0,
                        ) {
                            Ok(w) => w,
                            Err(_) => cands[ki].code.clone(),
                        };
                        insert_unique(&mut new_comps, rewoven);
                        ki += 1;
                    }
                },
                None => {},
            }
            pi += 1;
        }
        Ok(new_comps)
    } else {
        Ok(prompts)
    }
}


impl CompletionLevels<PreparedState> {
    /// Completes the prepared levels from the deepest up to the root:
    /// each node merges its children's candidates into prompts, and
    /// every level but the root asks the engine and weaves the answers
    /// back. The level structure is untouched; only the `completed`
    /// lists change. The root ends up with its merged prompts: exactly
    /// its own code when it has no children, and only woven texts,
    /// without duplicates, when it has.
    #[verifier::loop_isolation(false)]
    #[verifier::rlimit(100)]
    pub fn tree_complete<L: LangServerCommands, E: CompletionEngine, S: IndexSampler>(
        self,
        ls: &L,
        engine: &mut E,
        sampler: &mut S,
    ) -> (r: Result<CompletionLevels<CompletedState>, LangServerError>)
        requires
            wf_levels(self.levels@),
            self.levels@.len() >= 1,
            self.levels@[0].nodes@.len() == 1,
        ensures
            r matches Ok(c) ==> {
                &&& c.levels@.len() == self.levels@.len()
                &&& forall|d: int|
                    0 <= d < c.levels@.len() ==> level_shape_eq(
                        #[trigger] c.levels@[d],
                        self.levels@[d],
                    )
                &&& c.params == self.params
                &&& forall|d: int, j: int|
                    0 <= d < c.levels@.len() && 0 <= j < c.levels@[d].nodes@.len()
                        ==> distinct_strs(
                        (#[trigger] c.levels@[d].nodes@[j]).completed.deep_view(),
                    )
                &&& distinct_strs(c.levels@[0].nodes@[0].completed.deep_view())
                &&& self.levels@[0].nodes@[0].children_idxs@.len() == 0
                    ==> c.levels@[0].nodes@[0].completed.deep_view() == seq![
                    self.levels@[0].nodes@[0].code@,
                ]
                &&& self.levels@[0].nodes@[0].children_idxs@.len() > 0 ==> forall|t: int|
                    0 <= t < c.levels@[0].nodes@[0].completed.deep_view().len() ==> is_woven(
                        *ls,
                        #[trigger] c.levels@[0].nodes@[0].completed.deep_view()[t],
                    )
                &&& self.levels@[0].nodes@[0].children_idxs@.len() > 0 ==> forall|t: int|
                    0 <= t < c.levels@[0].nodes@[0].completed.deep_view().len() ==> derived_prompt(
                        *ls,
                        self.levels@[0].nodes@[0].code@,
                        picked_completed(
                            c.levels@[1].nodes@,
                            self.levels@[0].nodes@[0].children_idxs@,
                        ),
                        weave_level(0),
                        #[trigger] c.levels@[0].nodes@[0].completed.deep_view()[t],
                    )
            },
            self.levels@.len() == 1 ==> r is Ok,
    {
        let params = self.params;
        let mut stats = self.stats;
        let mut rem = self.levels;
        let ghost orig = rem@;
        let mut done_rev: Vec<CompLevel> = Vec::new();
        let mut prev_nodes: Vec<CompNode> = Vec::new();
        proof {
            assert(rem@ =~= orig.take(rem@.len() as int));
        }
        while rem.len() > 0
            invariant
                rem@ =~= orig.take(rem@.len() as int),
                done_rev@.len() + rem@.len() == orig.len(),
                forall|x: int|
                    0 <= x < done_rev@.len() ==> level_shape_eq(
                        #[trigger] done_rev@[x],
                        orig[orig.len() - 1 - x],
                    ),
                forall|x: int, j: int|
                    0 <= x < done_rev@.len() && 0 <= j < done_rev@[x].nodes@.len()
                        ==> distinct_strs(
                        (#[trigger] done_rev@[x].nodes@[j]).completed.deep_view(),
                    ),
                rem@.len() < orig.len() ==> prev_nodes@.len() == orig[rem@.len() as int].nodes@.len(),
                rem@.len() < orig.len() ==> done_rev@.len() > 0 && prev_nodes@.len()
                    == done_rev@[done_rev@.len() - 1].nodes@.len() && forall|x: int|
                    0 <= x < prev_nodes@.len() ==> (#[trigger] prev_nodes@[x]).completed.deep_view()
                        == done_rev@[done_rev@.len() - 1].nodes@[x].completed.deep_view(),
                done_rev@.len() == orig.len() ==> {
                    &&& distinct_strs(
                        done_rev@[orig.len() - 1].nodes@[0].completed.deep_view(),
                    )
                    &&& orig[0].nodes@[0].children_idxs@.len() == 0
                        ==> done_rev@[orig.len() - 1].nodes@[0].completed.deep_view() == seq![
                        orig[0].nodes@[0].code@,
                    ]
                    &&& orig[0].nodes@[0].children_idxs@.len() > 0 ==> forall|t: int|
                        0 <= t < done_rev@[orig.len() - 1].nodes@[0].completed.deep_view().len()
                            ==> is_woven(
                            *ls,
                            #[trigger] done_rev@[orig.len()
                                - 1].nodes@[0].completed.deep_view()[t],
                        )
                    &&& orig[0].nodes@[0].children_idxs@.len() > 0 ==> orig.len() >= 2 && forall|
                        t: int,
                    |
                        0 <= t < done_rev@[orig.len() - 1].nodes@[0].completed.deep_view().len()
                            ==> derived_prompt(
                            *ls,
                            orig[0].nodes@[0].code@,
                            picked_completed(
                                done_rev@[orig.len() - 2].nodes@,
                                orig[0].nodes@[0].children_idxs@,
                            ),
                            weave_level(0),
                            #[trigger] done_rev@[orig.len()
                                - 1].nodes@[0].completed.deep_view()[t],
                        )
                },
            decreases rem@.len(),
        {
            // the loop guard ensures a level is present; the arm below
            // is provably unreachable
            let mut lvl = match rem.pop() {
                Some(l) => l,
                None => {
                    proof {
                        assert(false);
                    }
                    return Err(LangServerError::SocketIO);
                },
            };
            let li = rem.len();
            proof {
                assert(lvl == orig[li as int]);
                assert(rem@ =~= orig.take(li as int));
            }
            let n = lvl.nodes.len();
            let mut new_nodes: Vec<CompNode> = Vec::new();
            let mut ni: usize = 0;
            while ni < n
                invariant
                    ni <= n,
                    n == lvl.nodes@.len(),
                    lvl == orig[li as int],
                    li < orig.len(),
                    li + 1 < orig.len() ==> prev_nodes@.len() == orig[li + 1].nodes@.len(),
                    new_nodes@.len() == ni,
                    forall|j: int|
                        0 <= j < ni ==> node_shape_eq(
                            #[trigger] new_nodes@[j],
                            lvl.nodes@[j],
                        ),
                    forall|j: int|
                        0 <= j < ni ==> distinct_strs(
                            (#[trigger] new_nodes@[j]).completed.deep_view(),
                        ),
                    li == 0 && ni == 1 ==> {
                        &&& distinct_strs(new_nodes@[0].completed.deep_view())
                        &&& orig[0].nodes@[0].children_idxs@.len() == 0
                            ==> new_nodes@[0].completed.deep_view() == seq![
                            orig[0].nodes@[0].code@,
                        ]
                        &&& orig[0].nodes@[0].children_idxs@.len() > 0 ==> forall|t: int|
                            0 <= t < new_nodes@[0].completed.deep_view().len() ==> is_woven(
                                *ls,
                                #[trigger] new_nodes@[0].completed.deep_view()[t],
                            )
                        &&& orig[0].nodes@[0].children_idxs@.len() > 0 ==> forall|t: int|
                            0 <= t < new_nodes@[0].completed.deep_view().len() ==> derived_prompt(
                                *ls,
                                orig[0].nodes@[0].code@,
                                picked_completed(
                                    prev_nodes@,
                                    orig[0].nodes@[0].children_idxs@,
                                ),
                                weave_level(0),
                                #[trigger] new_nodes@[0].completed.deep_view()[t],
                            )
                    },
                decreases n - ni,
            {
                proof {
                    assert(level_linked(
                        orig[li as int],
                        if li + 1 < orig.len() {
                            orig[li + 1].nodes@.len() as int
                        } else {
                            0
                        },
                    ));
                    assert(forall|k: int|
                        0 <= k < lvl.nodes@[ni as int].children_idxs@.len() ==> (
                        #[trigger] lvl.nodes@[ni as int].children_idxs@[k])
                            < prev_nodes@.len());
                }
                proof {
                    if orig.len() == 1 {
                        assert(wf_levels(orig));
                        assert(level_linked(orig[0], 0));
                        if lvl.nodes@[ni as int].children_idxs@.len() > 0 {
                            assert(lvl.nodes@[ni as int].children_idxs@[0] < 0);
                        }
                        assert(lvl.nodes@[ni as int].children_idxs@.len() == 0);
                    }
                }
                let comps = match complete_node(
                    &params,
                    ls,
                    engine,
                    sampler,
                    li,
                    &prev_nodes,
                    &lvl.nodes[ni],
                ) {
                    Ok(c) => c,
                    Err(e) => {
                        return Err(e);
                    },
                };
                stats = crate::stats::insert_num_comps(
                    stats,
                    lvl.nodes[ni].name.as_str(),
                    comps.len(),
                );
                let nd = node_with_completed(&lvl.nodes[ni], comps);
                new_nodes.push(nd);
                ni += 1;
            }
            let ghost prev_old = prev_nodes@;
            prev_nodes = clone_nodes(&new_nodes);
            let ghost nn = new_nodes@;
            done_rev.push(CompLevel { nodes: new_nodes });
            proof {
                assert(done_rev@[done_rev@.len() - 1].nodes@ == nn);
                assert(level_shape_eq(done_rev@[done_rev@.len() - 1], orig[li as int]));
                if li == 0 && orig[0].nodes@[0].children_idxs@.len() > 0 {
                    assert(orig.len() >= 2) by {
                        assert(level_linked(
                            orig[0],
                            if 1 < orig.len() {
                                orig[1].nodes@.len() as int
                            } else {
                                0
                            },
                        ));
                        if orig.len() == 1 {
                            assert(orig[0].nodes@[0].children_idxs@[0] < 0);
                        }
                    };
                    assert(done_rev@[orig.len() - 2].nodes@.len() == prev_old.len());
                    assert(picked_completed(prev_old, orig[0].nodes@[0].children_idxs@)
                        =~= picked_completed(
                        done_rev@[orig.len() - 2].nodes@,
                        orig[0].nodes@[0].children_idxs@,
                    )) by {
                        assert(forall|i: int|
                            0 <= i < orig[0].nodes@[0].children_idxs@.len()
                                ==> (#[trigger] orig[0].nodes@[0].children_idxs@[i])
                                < prev_old.len());
                    };
                }
            }
        }
        let mut out_levels: Vec<CompLevel> = Vec::new();
        let ghost dr = done_rev@;
        while done_rev.len() > 0
            invariant
                out_levels@.len() + done_rev@.len() == dr.len(),
                done_rev@ =~= dr.take(done_rev@.len() as int),
                forall|x: int|
                    0 <= x < out_levels@.len() ==> #[trigger] out_levels@[x] == dr[dr.len() - 1
                        - x],
                forall|x: int, j: int|
                    0 <= x < dr.len() && 0 <= j < dr[x].nodes@.len() ==> distinct_strs(
                        (#[trigger] dr[x].nodes@[j]).completed.deep_view(),
                    ),
            decreases done_rev@.len(),
        {
            // provably unreachable as well: the guard saw a level
            let l = match done_rev.pop() {
                Some(l) => l,
                None => {
                    proof {
                        assert(false);
                    }
                    return Err(LangServerError::SocketIO);
                },
            };
            out_levels.push(l);
        }
        proof {
            assert(out_levels@.len() == orig.len());
            assert(forall|d: int|
                0 <= d < out_levels@.len() ==> level_shape_eq(
                    #[trigger] out_levels@[d],
                    orig[d],
                ));
            assert(out_levels@[0] == dr[dr.len() - 1]);
        }
        Ok(CompletionLevels { levels: out_levels, params, stats, state: core::marker::PhantomData })
    }
}

impl CompletionLevels<CompletedState> {
    /// Hands back the root's candidate list, consuming the pipeline.
    pub fn disassemble(self) -> (r: Vec<String>)
        requires
            self.levels@.len() >= 1,
            self.levels@[0].nodes@.len() >= 1,
        ensures
            r == self.levels@[0].nodes@[0].completed,
    {
        let mut levels = self.levels;
        let mut first = levels.remove(0);
        let root = first.nodes.remove(0);
        root.completed
    }
}

} // verus!
