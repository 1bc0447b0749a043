use treecomp::engine::{Completion, CompletionEngine, CompletionError, CompletionQuery};
use treecomp::langserver::{AnnotateType, CheckProblem, LangServerCommands, LangServerError};
use treecomp::stats::TreeAlgoStats;
use treecomp::tree::{CodeBlockTree, CompletionLevels, HyperParams, IndexSampler};

/// An analyzer stand-in whose weave appends the nettle to the
/// original, so every woven result stays distinct and visible.
struct ConcatServer;

impl LangServerCommands for ConcatServer {
    // the ghost description of weave is erased from compiled code and
    // never called at run time
    fn weave_spec(
        &self,
        _original: vstd::seq::Seq<char>,
        _nettle: vstd::seq::Seq<char>,
        _level: vstd::prelude::nat,
    ) -> vstd::seq::Seq<char> {
        unreachable!()
    }

    fn pretty_print(
        &self,
        code: &str,
        _type_token: &str,
        _types: &Vec<AnnotateType>,
    ) -> Result<String, LangServerError> {
        Ok(code.to_string())
    }

    fn to_tree(&self, code: &str) -> Result<CodeBlockTree, LangServerError> {
        Ok(CodeBlockTree {
            name: "topnode_0".to_string(),
            code: code.to_string(),
            children: vec![],
        })
    }

    fn stub(&self, code: &str) -> Result<String, LangServerError> {
        Ok(code.to_string())
    }

    fn check_complete(
        &self,
        _original: &str,
        _completed: &str,
    ) -> Result<(Vec<CheckProblem>, u16), LangServerError> {
        Ok((vec![], 0))
    }

    fn weave(&self, original: &str, nettle: &str, _level: usize) -> Result<String, LangServerError> {
        Ok(format!("{}+{}", original, nettle))
    }

    fn usages(&self, _outer: &str, inner: &str) -> Result<(String, usize), LangServerError> {
        Ok((format!("// uses {}", inner), 1))
    }
}

/// An engine stand-in that answers each prompt with up to `num_comps`
/// numbered candidates.
struct NumberingEngine;

impl CompletionEngine for NumberingEngine {
    fn complete(&mut self, q: &CompletionQuery) -> Result<Vec<Completion>, CompletionError> {
        let mut out = vec![];
        let mut i = 0;
        while i < q.num_comps && i < 2 {
            out.push(Completion {
                code: format!("{}#{}", q.input, i),
            });
            i += 1;
        }
        Ok(out)
    }
}

/// An engine stand-in that always fails.
struct FailingEngine;

impl CompletionEngine for FailingEngine {
    fn complete(&mut self, _q: &CompletionQuery) -> Result<Vec<Completion>, CompletionError> {
        Err(CompletionError::Engine("down".to_string()))
    }
}

struct FirstSampler;

impl IndexSampler for FirstSampler {
    fn sample(&mut self) -> usize {
        0
    }
}

fn params(num_comps: usize, retries: usize, stop_at: usize) -> HyperParams {
    HyperParams {
        retries,
        num_comps,
        fallback: false,
        usages: false,
        stub: false,
        stop_at,
        types: vec![],
    }
}

#[test]
fn trivial_tree_keeps_root_code() {
    let tree = CodeBlockTree {
        name: "topnode_0".to_string(),
        code: "pass".to_string(),
        children: vec![],
    };
    let server = ConcatServer;
    let prepared = CompletionLevels::new(params(1, 0, 1), None)
        .prepare(tree, &server)
        .expect("prepare should succeed");
    assert_eq!(prepared.levels.len(), 1);
    assert_eq!(prepared.levels[0].nodes.len(), 1);
    let root = &prepared.levels[0].nodes[0];
    assert_eq!(root.name, "topnode_0");
    assert_eq!(root.code, "pass");
    assert!(root.children_idxs.is_empty());
    assert_eq!(root.usages, "");
    assert!(root.completed.is_empty());

    let mut engine = NumberingEngine;
    let mut sampler = FirstSampler;
    let completed = prepared
        .tree_complete(&server, &mut engine, &mut sampler)
        .expect("completion should succeed");
    assert_eq!(completed.disassemble(), vec!["pass".to_string()]);
}

#[test]
fn merge_branching_weaves_both_children() {
    let tree = CodeBlockTree {
        name: "topnode_0".to_string(),
        code: "root".to_string(),
        children: vec![
            CodeBlockTree {
                name: "child_a".to_string(),
                code: "aaa".to_string(),
                children: vec![],
            },
            CodeBlockTree {
                name: "child_b".to_string(),
                code: "bbb".to_string(),
                children: vec![],
            },
        ],
    };
    let server = ConcatServer;
    let prepared = CompletionLevels::new(params(2, 0, 10), None)
        .prepare(tree, &server)
        .expect("prepare should succeed");
    assert_eq!(prepared.levels.len(), 2);
    assert_eq!(prepared.levels[0].nodes[0].children_idxs, vec![0, 1]);
    assert_eq!(prepared.levels[1].nodes.len(), 2);

    let mut engine = NumberingEngine;
    let mut sampler = FirstSampler;
    let completed = prepared
        .tree_complete(&server, &mut engine, &mut sampler)
        .expect("completion should succeed");
    // each child yields two candidates; both all-combination merges
    // stay within the budget of five, so the root holds 2 * 2 woven
    // prompts, each mentioning root, one candidate of a and one of b
    let result = completed.disassemble();
    assert_eq!(result.len(), 4);
    for r in &result {
        assert!(r.starts_with("root+"));
        assert!(r.contains("aaa#"));
        assert!(r.contains("bbb#"));
    }
}

#[test]
fn failing_engine_leaves_no_candidates() {
    let tree = CodeBlockTree {
        name: "topnode_0".to_string(),
        code: "root".to_string(),
        children: vec![CodeBlockTree {
            name: "child_a".to_string(),
            code: "aaa".to_string(),
            children: vec![],
        }],
    };
    let server = ConcatServer;
    let prepared = CompletionLevels::new(params(2, 0, 10), None)
        .prepare(tree, &server)
        .expect("prepare should succeed");
    let mut engine = FailingEngine;
    let mut sampler = FirstSampler;
    let completed = prepared
        .tree_complete(&server, &mut engine, &mut sampler)
        .expect("an engine failure skips prompts but does not abort");
    // the child got no candidates, so the root's merge had nothing to
    // weave and the final candidate list is empty
    assert_eq!(completed.disassemble(), Vec::<String>::new());
}

#[test]
fn usages_are_gathered_for_nested_nodes() {
    let tree = CodeBlockTree {
        name: "topnode_0".to_string(),
        code: "root".to_string(),
        children: vec![
            CodeBlockTree {
                name: "child_a".to_string(),
                code: "aaa".to_string(),
                children: vec![],
            },
            CodeBlockTree {
                name: "topnode_like".to_string(),
                code: "ttt".to_string(),
                children: vec![],
            },
        ],
    };
    let server = ConcatServer;
    let mut p = params(1, 0, 1);
    p.usages = true;
    let prepared = CompletionLevels::new(p, Some(TreeAlgoStats::new()))
        .prepare(tree, &server)
        .expect("prepare should succeed");
    assert_eq!(prepared.levels[1].nodes[0].usages, "// uses aaa");
    // names with the topnode prefix get no usages snippet
    assert_eq!(prepared.levels[1].nodes[1].usages, "");
    let stats = prepared.stats.as_ref().expect("stats were requested");
    assert_eq!(stats.num_nodes, 2);
    assert_eq!(stats.num_usages_per_node.get("child_a"), Some(1));
    assert_eq!(stats.num_usages_per_node.get("topnode_like"), None);
}

#[test]
fn depth_limit_prunes() {
    let mut tree = CodeBlockTree {
        name: "topnode_0".to_string(),
        code: "r".to_string(),
        children: vec![CodeBlockTree {
            name: "a".to_string(),
            code: "a".to_string(),
            children: vec![CodeBlockTree {
                name: "b".to_string(),
                code: "b".to_string(),
                children: vec![],
            }],
        }],
    };
    tree.depth_limit(1);
    assert_eq!(tree.children.len(), 1);
    assert!(tree.children[0].children.is_empty());
    tree.depth_limit(0);
    assert!(tree.children.is_empty());
}

#[test]
fn tight_budget_uses_random_merge() {
    let tree = CodeBlockTree {
        name: "topnode_0".to_string(),
        code: "root".to_string(),
        children: vec![CodeBlockTree {
            name: "child_a".to_string(),
            code: "aaa".to_string(),
            children: vec![],
        }],
    };
    let server = ConcatServer;
    // three candidates per child but a budget of one: the merge must
    // sample; the fixed sampler always keeps the first pair
    let prepared = CompletionLevels::new(params(3, 0, 1), None)
        .prepare(tree, &server)
        .expect("prepare should succeed");
    let mut engine = NumberingEngine3;
    let mut sampler = FirstSampler;
    let completed = prepared
        .tree_complete(&server, &mut engine, &mut sampler)
        .expect("completion should succeed");
    let result = completed.disassemble();
    // the child's own candidate is already woven ("aaa" + its first
    // engine answer), and the root weaves that in turn
    assert_eq!(result, vec!["root+aaa+aaa#0".to_string()]);
}

/// An engine stand-in that always answers with three candidates.
struct NumberingEngine3;

impl CompletionEngine for NumberingEngine3 {
    fn complete(&mut self, q: &CompletionQuery) -> Result<Vec<Completion>, CompletionError> {
        let mut out = vec![];
        let mut i = 0;
        while i < q.num_comps && i < 3 {
            out.push(Completion {
                code: format!("{}#{}", q.input, i),
            });
            i += 1;
        }
        Ok(out)
    }
}
