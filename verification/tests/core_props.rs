use std::collections::HashMap;

use treecomp::cache::cache_key;
use treecomp::json::{parse_string_list, string_list_to_string};
use treecomp::langserver::{
    check_problem_tag, parse_check_problem, CheckProblem, LSPrintReq, LSReq, LSUsagesReq,
    LSWeaveReq, LangServerError,
};
use treecomp::stats::CountMap;
use treecomp::strutil::{has_topnode_prefix, str_eq};
use treecomp::tree::{count_all_possible_combs, distribute_stop_at, saturating_pow, CompNode};

fn node_with_completed(completed: Vec<String>) -> CompNode {
    CompNode {
        children_idxs: vec![],
        name: "n".to_string(),
        code: "c".to_string(),
        completed,
        usages: String::new(),
    }
}

#[test]
fn distribution_examples() {
    assert_eq!(distribute_stop_at(10, 3), vec![4, 3, 3]);
    assert_eq!(distribute_stop_at(10, 4), vec![3, 3, 2, 2]);
    assert_eq!(distribute_stop_at(7, 7), vec![1, 1, 1, 1, 1, 1, 1]);
    assert_eq!(distribute_stop_at(0, 3), vec![0, 0, 0]);
    assert_eq!(distribute_stop_at(5, 1), vec![5]);
}

#[test]
fn combination_count_saturates() {
    let big: usize = 1 << 40;
    assert_eq!(saturating_pow(big, big), usize::MAX);
    let child = node_with_completed(vec![big.to_string(); 0]);
    assert_eq!(count_all_possible_combs(&child, 3), 0);
    let child3 = node_with_completed(vec!["a".into(), "b".into(), "c".into()]);
    assert_eq!(count_all_possible_combs(&child3, 4), 81);
    let big_node = node_with_completed(vec![String::new(); 1 << 20]);
    assert_eq!(count_all_possible_combs(&big_node, 1 << 20), usize::MAX);
}

#[test]
fn check_problem_tags_round_trip() {
    for p in [
        CheckProblem::NotComplete,
        CheckProblem::ChangedCode,
        CheckProblem::ChangedComments,
    ] {
        let tag = check_problem_tag(&p);
        assert_eq!(parse_check_problem(tag.as_str()), Some(p));
    }
    assert_eq!(check_problem_tag(&CheckProblem::NotComplete), "NotComplete");
    assert_eq!(check_problem_tag(&CheckProblem::ChangedCode), "ChangedCode");
    assert_eq!(
        check_problem_tag(&CheckProblem::ChangedComments),
        "ChangedComments"
    );
    assert_eq!(parse_check_problem("notcomplete"), None);
    assert_eq!(parse_check_problem(""), None);
    assert_eq!(parse_check_problem("Changed"), None);
}

#[test]
fn cache_round_trip_through_store() {
    let stop_at = 7;
    let mut store: HashMap<String, String> = HashMap::new();
    let value = string_list_to_string(&vec!["x".to_string(), "y".to_string()]);
    store.insert(cache_key("abc", 5, 2, stop_at), value);

    let hit = store.get(&cache_key("abc", 5, 2, stop_at));
    let parsed = parse_string_list(hit.expect("entry should be present"));
    assert_eq!(parsed, Some(vec!["x".to_string(), "y".to_string()]));

    assert!(store.get(&cache_key("abc", 5, 3, stop_at)).is_none());
    assert!(store.get(&cache_key("abc", 4, 2, stop_at)).is_none());
    assert!(store.get(&cache_key("abd", 5, 2, stop_at)).is_none());
    assert!(store.get(&cache_key("abc", 5, 2, stop_at + 1)).is_none());
}

#[test]
fn cache_key_is_canonical_json() {
    let key = cache_key("say \"hi\"\n\\", 3, 1, 10);
    let v: serde_json::Value = serde_json::from_str(&key).expect("key should be JSON");
    assert_eq!(v["query"], "say \"hi\"\n\\");
    assert_eq!(v["num_comps"], 3);
    assert_eq!(v["retries"], 1);
    assert_eq!(v["stop_at"], 10);
    // the key matches what the original store format produced
    assert_eq!(
        cache_key("abc", 5, 2, 7),
        "{\"query\":\"abc\",\"num_comps\":5,\"retries\":2,\"stop_at\":7}"
    );
}

#[test]
fn string_list_round_trips() {
    let cases: Vec<Vec<String>> = vec![
        vec![],
        vec!["".to_string()],
        vec!["plain".to_string()],
        vec!["with \"quotes\"".to_string(), "back\\slash".to_string()],
        vec!["line\none".to_string(), "tab\there".to_string(), "\u{1}".to_string()],
    ];
    for case in cases {
        let enc = string_list_to_string(&case);
        assert_eq!(parse_string_list(&enc), Some(case.clone()));
        let via_serde: Vec<String> = serde_json::from_str(&enc).expect("encoding should be JSON");
        assert_eq!(via_serde, case);
    }
}

#[test]
fn string_list_rejects_invalid() {
    assert_eq!(parse_string_list(""), None);
    assert_eq!(parse_string_list("["), None);
    assert_eq!(parse_string_list("[\"a\""), None);
    assert_eq!(parse_string_list("[\"a\",]"), None);
    assert_eq!(parse_string_list("[\"a\"] "), None);
    assert_eq!(parse_string_list("[1]"), None);
}

#[test]
fn wire_requests_encode_payloads() {
    let req = LSReq::new("stub", "hello");
    assert_eq!(req.text, "aGVsbG8=");
    assert_eq!(req.to_json(), "{\"cmd\":\"stub\",\"text\":\"aGVsbG8=\"}");

    let print = LSPrintReq::new("hello", "_hole_");
    assert_eq!(print.cmd, "print");
    assert_eq!(
        print.to_json(),
        "{\"cmd\":\"print\",\"text\":\"aGVsbG8=\",\"typeName\":\"_hole_\"}"
    );

    let weave = LSWeaveReq::new("a", "b", 12);
    assert_eq!(weave.cmd, "weave");
    assert_eq!(
        weave.to_json(),
        "{\"cmd\":\"weave\",\"text\":\"YQ==\",\"nettle\":\"Yg==\",\"level\":12}"
    );

    let usages = LSUsagesReq::new("outer", "inner");
    assert_eq!(usages.cmd, "usages");
    let v: serde_json::Value = serde_json::from_str(&usages.to_json()).unwrap();
    assert_eq!(v["innerBlock"], base64::Engine::encode(
        &base64::engine::general_purpose::STANDARD,
        "inner",
    ));
}

#[test]
fn error_messages_match() {
    assert_eq!(
        LangServerError::LC("boom".to_string()).message(),
        "Language client error: boom"
    );
    assert_eq!(
        LangServerError::ProcessSpawn.message(),
        "could not spawn language server"
    );
    assert_eq!(LangServerError::SocketConnect.message(), "Socket connection error");
    assert_eq!(LangServerError::SocketIO.message(), "Socket IO error");
}

#[test]
fn count_map_overwrites() {
    let mut m = CountMap::new();
    assert_eq!(m.get("a"), None);
    m.set("a", 1);
    m.set("b", 2);
    m.set("a", 3);
    assert_eq!(m.get("a"), Some(3));
    assert_eq!(m.get("b"), Some(2));
    assert_eq!(m.get("c"), None);
}

#[test]
fn topnode_prefix_detection() {
    assert!(has_topnode_prefix("topnode_0"));
    assert!(has_topnode_prefix("topnode"));
    assert!(!has_topnode_prefix("topnod"));
    assert!(!has_topnode_prefix("a_topnode"));
    assert!(str_eq("same", "same"));
    assert!(!str_eq("same", "samE"));
}

struct FlakyEngine {
    failures_left: usize,
}

impl treecomp::engine::CompletionEngine for FlakyEngine {
    fn complete(
        &mut self,
        q: &treecomp::engine::CompletionQuery,
    ) -> Result<Vec<treecomp::engine::Completion>, treecomp::engine::CompletionError> {
        if self.failures_left > 0 {
            self.failures_left -= 1;
            Err(treecomp::engine::CompletionError::RateLimit(vec![]))
        } else {
            Ok(vec![treecomp::engine::Completion {
                code: q.input.clone(),
            }])
        }
    }
}

#[test]
fn retry_gives_up_after_six_attempts() {
    let q = treecomp::engine::CompletionQueryBuilder::new("p".to_string())
        .num_comps(2)
        .retries(1)
        .fallback(true)
        .problem_whitelist(vec![CheckProblem::ChangedComments])
        .build();
    assert_eq!(q.num_comps, 2);
    assert_eq!(q.retries, 1);
    assert!(q.fallback);
    assert_eq!(q.problem_whitelist, vec![CheckProblem::ChangedComments]);

    let mut five = FlakyEngine { failures_left: 5 };
    let got = treecomp::engine::retry_query_until_ok(&mut five, &q);
    assert!(got.is_some());
    assert_eq!(got.unwrap()[0].code, "p");

    let mut six = FlakyEngine { failures_left: 6 };
    assert!(treecomp::engine::retry_query_until_ok(&mut six, &q).is_none());
}
