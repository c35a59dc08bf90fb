use rime_core::context::Context;
use rime_core::dict::TsvDictionary;
use rime_core::dictionary::Dictionary;
use rime_core::engine::{Analyzer, Engine};
use rime_core::filter::{DedupSortTruncate, Filter};
use rime_core::key_event::{Action, InputEvent};
use rime_core::model::Candidate;
use rime_core::pinyin::QuanpinPreeditor;
use rime_core::session::Session;
use rime_core::strutil::sanitize_input;

fn cand(text: &str, weight: i32, start: usize, end: usize) -> Candidate {
    Candidate {
        text: text.to_string(),
        comment: None,
        weight,
        segment_start: start,
        segment_end: end,
    }
}

fn demo_dict() -> TsvDictionary {
    let tsv = "\
# demo dictionary
你好\tnihao\t100
你\tni\t50
好\thao\t40
哈\tha\t5
哦\to\t1
起始\tqishi\t10
";
    match TsvDictionary::from_tsv_str(tsv) {
        Ok(d) => d,
        Err(_) => panic!("the demo dictionary must parse"),
    }
}

fn demo_session() -> Session<TsvDictionary, QuanpinPreeditor> {
    let engine = Engine::new(demo_dict(), QuanpinPreeditor::new()).candidate_limit(9);
    Session::new(engine)
}

#[test]
fn segmenter_round_trip() {
    let p = QuanpinPreeditor::new();
    let a = p.analyze("nihao");
    assert_eq!(a.segment, vec!["ni".to_string(), "hao".to_string()]);
    assert_eq!(a.preedit, "ni hao");
    assert_eq!(a.segment.concat(), "nihao");

    // Ties in the structural score go to the earliest-evaluated entry:
    // the longer syllable wins over "xi" + "an".
    let b = p.analyze("xian");
    assert_eq!(b.segment, vec!["xian".to_string()]);
    let c = p.analyze("zhongguo");
    assert_eq!(c.segment, vec!["zhong".to_string(), "guo".to_string()]);
    assert_eq!(c.preedit, "zhong guo");
}

#[test]
fn segmenter_break_marker_and_case() {
    let p = QuanpinPreeditor::new();
    let a = p.analyze("NiHao");
    assert_eq!(a.segment, vec!["ni".to_string(), "hao".to_string()]);
    let b = p.analyze("xi'an");
    assert_eq!(b.segment, vec!["xi".to_string(), "an".to_string()]);
    assert_eq!(b.preedit, "xi an");
}

#[test]
fn fallback_short_input_goes_to_initials() {
    let p = QuanpinPreeditor::new();
    let a = p.analyze("qs");
    assert_eq!(a.segment, vec!["q".to_string(), "s".to_string()]);
    assert_eq!(a.preedit, "q s");
    let b = p.analyze("qsx");
    assert_eq!(b.segment, vec!["q".to_string(), "s".to_string(), "x".to_string()]);
}

#[test]
fn fallback_long_input_passes_through() {
    let p = QuanpinPreeditor::new();
    // Seven letters with no syllable decomposition.
    let a = p.analyze("qqqqqqq");
    assert!(a.segment.is_empty());
    assert_eq!(a.preedit, "qqqqqqq");
}

#[test]
fn fallback_non_letters_pass_through() {
    let p = QuanpinPreeditor::new();
    let a = p.analyze("ni3");
    assert!(a.segment.is_empty());
    assert_eq!(a.preedit, "ni3");
}

#[test]
fn empty_input_empty_analysis() {
    let p = QuanpinPreeditor::new();
    let a = p.analyze("");
    assert!(a.segment.is_empty());
    assert_eq!(a.preedit, "");
}

#[test]
fn filter_sorts_by_weight_then_text() {
    let f = DedupSortTruncate { limit: 9 };
    let out = f.apply(vec![
        cand("b", 5, 0, 1),
        cand("a", 7, 0, 1),
        cand("c", 5, 0, 1),
        cand("a", 5, 0, 1),
    ]);
    let texts: Vec<&str> = out.iter().map(|c| c.text.as_str()).collect();
    // The two "a" candidates share text and span, so only the
    // higher-weighted survives the duplicate removal.
    assert_eq!(texts, vec!["a", "b", "c"]);
    assert_eq!(out[0].weight, 7);
    for w in out.windows(2) {
        assert!(
            w[0].weight > w[1].weight || (w[0].weight == w[1].weight && w[0].text <= w[1].text)
        );
    }
}

#[test]
fn filter_dedups_consecutive_same_key() {
    let f = DedupSortTruncate { limit: 9 };
    let out = f.apply(vec![
        cand("a", 5, 0, 1),
        cand("a", 5, 0, 1),
        cand("a", 5, 0, 2),
    ]);
    // The two (a, 0, 1) duplicates collapse; the different span stays.
    assert_eq!(out.len(), 2);
    assert!(out.iter().any(|c| c.segment_end == 1));
    assert!(out.iter().any(|c| c.segment_end == 2));
}

#[test]
fn filter_truncates_to_limit_and_clamps_zero() {
    let f = DedupSortTruncate { limit: 2 };
    let out = f.apply(vec![cand("a", 3, 0, 1), cand("b", 2, 0, 1), cand("c", 1, 0, 1)]);
    assert_eq!(out.len(), 2);
    let f0 = DedupSortTruncate { limit: 0 };
    let out0 = f0.apply(vec![cand("a", 3, 0, 1), cand("b", 2, 0, 1)]);
    assert_eq!(out0.len(), 1);
}

#[test]
fn dictionary_exact_lookup() {
    let d = demo_dict();
    let seg = vec!["ni".to_string(), "hao".to_string()];
    let r = d.lookup_span(&seg, 0, 2, 9);
    assert!(!r.is_empty());
    assert_eq!(r[0].text, "你好");
    assert_eq!(r[0].weight, 100);
    assert_eq!(r[0].comment, None);
    assert_eq!((r[0].segment_start, r[0].segment_end), (0, 2));
}

#[test]
fn dictionary_prefix_completion_carries_key_comment() {
    let d = demo_dict();
    let seg = vec!["ni".to_string()];
    let r = d.lookup_span(&seg, 0, 1, 9);
    // Exact match for "ni" plus the completion from "nihao".
    assert!(r.iter().any(|c| c.text == "你" && c.comment.is_none()));
    assert!(r.iter().any(|c| c.text == "你好"
        && c.comment.as_deref() == Some("nihao")));
}

#[test]
fn dictionary_rejects_missing_fields() {
    let err = match TsvDictionary::from_tsv_str("好\thao\n没有键\n") {
        Err(e) => e,
        Ok(_) => panic!("a line without a key must be rejected"),
    };
    assert_eq!(err.line, 2);
    let err2 = match TsvDictionary::from_tsv_str("x\t \n") {
        Err(e) => e,
        Ok(_) => panic!("a line with a blank key must be rejected"),
    };
    assert_eq!(err2.line, 1);
}

#[test]
fn dictionary_parses_weights() {
    let d = match TsvDictionary::from_tsv_str("甲\tjia\t17\n乙\tyi\tbroken\n丙\tbing\n") {
        Ok(d) => d,
        Err(_) => panic!("must parse"),
    };
    let r = d.lookup_span(&vec!["jia".to_string()], 0, 1, 9);
    assert_eq!(r[0].weight, 17);
    let r2 = d.lookup_span(&vec!["yi".to_string()], 0, 1, 9);
    assert_eq!(r2[0].weight, 0);
    let r3 = d.lookup_span(&vec!["bing".to_string()], 0, 1, 9);
    assert_eq!(r3[0].weight, 0);
}

#[test]
fn engine_composes_sentences_from_words() {
    // No entry for the whole key: the beam search composes one.
    let d = match TsvDictionary::from_tsv_str("你\tni\t50\n好\thao\t40\n") {
        Ok(d) => d,
        Err(_) => panic!("must parse"),
    };
    let engine = Engine::new(d, QuanpinPreeditor::new());
    let ui = engine.compose("nihao");
    assert_eq!(ui.segment, vec!["ni".to_string(), "hao".to_string()]);
    assert!(ui
        .candidate_list
        .iter()
        .any(|c| c.text == "你好" && c.comment.as_deref() == Some("compose")));
}

#[test]
fn engine_candidate_limit_is_respected() {
    let d = match TsvDictionary::from_tsv_str("一\tyi\t9\n乙\tyi\t8\n已\tyi\t7\n以\tyi\t6\n") {
        Ok(d) => d,
        Err(_) => panic!("must parse"),
    };
    let engine = Engine::new(d, QuanpinPreeditor::new()).candidate_limit(2);
    let ui = engine.compose("yi");
    assert!(ui.candidate_list.len() <= 2);
    assert_eq!(ui.candidate_list[0].text, "一");
}

#[test]
fn engine_rejects_bad_limit() {
    let d = demo_dict();
    let engine = Engine::new(d, QuanpinPreeditor::new()).candidate_limit(42);
    let ui = engine.compose("nihao");
    assert!(ui.candidate_list.len() <= 9);
}

#[test]
fn end_to_end_select_word_by_word() {
    let mut session = demo_session();
    for ch in "nihao".chars() {
        session.handle(InputEvent::Char(ch));
    }
    let ui = session.ui_state();
    assert_eq!(ui.segment, vec!["ni".to_string(), "hao".to_string()]);
    assert_eq!(ui.confirm, 0);
    assert_eq!(ui.caret, 2);

    // Pick the single-segment word "你" first.
    let i = ui
        .candidate_list
        .iter()
        .position(|c| c.segment_end == 1 && c.text == "你")
        .unwrap();
    let (ui2, actions) = session.handle(InputEvent::Select(i));
    assert!(actions.is_empty());
    assert_eq!(ui2.confirm, 1);
    assert_eq!(ui2.confirm_text, "你");

    // Then the candidate finishing the span.
    let j = ui2
        .candidate_list
        .iter()
        .position(|c| c.text == "好")
        .unwrap();
    let (_ui3, actions2) = session.handle(InputEvent::Select(j));
    assert_eq!(actions2, vec![Action::Commit("你好".to_string())]);
}

#[test]
fn end_to_end_full_span_select_commits() {
    let mut session = demo_session();
    for ch in "nihao".chars() {
        session.handle(InputEvent::Char(ch));
    }
    let (_ui, actions) = session.handle(InputEvent::Space);
    assert_eq!(actions, vec![Action::Commit("你好".to_string())]);
}

#[test]
fn end_to_end_initials_lookup() {
    // The dictionary finds the entry through its initials index and tags
    // it with the full key it lives under.
    let d = demo_dict();
    let seg = vec!["q".to_string(), "s".to_string()];
    let r = d.lookup_span(&seg, 0, 2, 9);
    assert!(r
        .iter()
        .any(|c| c.text == "起始" && c.comment.as_deref() == Some("qishi")));

    // Through a whole session the word is reachable by typing "qs".
    let mut session = demo_session();
    session.handle(InputEvent::Char('q'));
    let (ui, _) = session.handle(InputEvent::Char('s'));
    assert_eq!(ui.segment, vec!["q".to_string(), "s".to_string()]);
    assert!(ui.candidate_list.iter().any(|c| c.text == "起始"));
}

#[test]
fn end_to_end_backspace_then_enter_commits_nothing() {
    let mut session = demo_session();
    session.handle(InputEvent::Char('a'));
    let (ui1, _) = session.handle(InputEvent::Backspace);
    assert_eq!(ui1.raw_input, "");
    let (ui2, actions) = session.handle(InputEvent::Enter);
    assert!(actions.is_empty());
    assert_eq!(ui2.raw_input, "");
    assert_eq!(ui2.confirm_text, "");
}

#[test]
fn enter_commits_confirmed_and_raw() {
    let mut session = demo_session();
    for ch in "nihao".chars() {
        session.handle(InputEvent::Char(ch));
    }
    let ui = session.ui_state();
    let i = ui
        .candidate_list
        .iter()
        .position(|c| c.segment_end == 1 && c.text == "你")
        .unwrap();
    session.handle(InputEvent::Select(i));
    let (_ui, actions) = session.handle(InputEvent::Enter);
    assert_eq!(actions, vec![Action::Commit("你nihao".to_string())]);
    let after = session.ui_state();
    assert_eq!(after.raw_input, "");
    assert_eq!(after.caret, 0);
    assert_eq!(after.confirm, 0);
}

#[test]
fn clear_resets_everything() {
    let mut session = demo_session();
    for ch in "nihao".chars() {
        session.handle(InputEvent::Char(ch));
    }
    let (ui, actions) = session.handle(InputEvent::Clear);
    assert!(actions.is_empty());
    assert_eq!(ui.raw_input, "");
    assert!(ui.segment.is_empty());
    assert_eq!((ui.confirm, ui.caret), (0, 0));
}

#[test]
fn exit_event_falls_through() {
    let mut session = demo_session();
    session.handle(InputEvent::Char('n'));
    let before = session.ui_state();
    let (after, actions) = session.handle(InputEvent::Exit);
    assert!(actions.is_empty());
    assert_eq!(before.raw_input, after.raw_input);
    assert_eq!(before.segment, after.segment);
}

#[test]
fn reset_is_idempotent() {
    let mut ctx = Context::default();
    ctx.raw_input = "nihao".to_string();
    ctx.confirm_text = "你".to_string();
    ctx.reset();
    let first = (
        ctx.raw_input.clone(),
        ctx.analysis.segment.clone(),
        ctx.caret,
        ctx.confirm,
        ctx.confirm_text.clone(),
    );
    ctx.reset();
    let second = (
        ctx.raw_input.clone(),
        ctx.analysis.segment.clone(),
        ctx.caret,
        ctx.confirm,
        ctx.confirm_text.clone(),
    );
    assert_eq!(first, second);
    assert_eq!(first.0, "");
    assert!(first.1.is_empty());
    assert_eq!((first.2, first.3), (0, 0));
}

#[test]
fn selection_with_wrong_start_is_a_no_op() {
    let engine = Engine::new(demo_dict(), QuanpinPreeditor::new());
    let mut ctx = Context::default();
    ctx.raw_input = "nihao".to_string();
    ctx.reanalyze(&engine);
    assert_eq!((ctx.confirm, ctx.caret), (0, 2));
    // A candidate that does not start at the confirmed boundary.
    let list = vec![cand("好", 40, 1, 2)];
    let actions = ctx.select_from_list(&list, 0);
    assert!(actions.is_empty());
    assert_eq!((ctx.confirm, ctx.caret), (0, 2));
    assert_eq!(ctx.confirm_text, "");
}

#[test]
fn selection_out_of_range_is_a_no_op() {
    let engine = Engine::new(demo_dict(), QuanpinPreeditor::new());
    let mut ctx = Context::default();
    ctx.raw_input = "nihao".to_string();
    ctx.reanalyze(&engine);
    let actions = ctx.select_candidate(&engine, 99);
    assert!(actions.is_empty());
    assert_eq!((ctx.confirm, ctx.caret), (0, 2));
}

#[test]
fn reanalyze_clamps_confirm_and_clears_text() {
    let engine = Engine::new(demo_dict(), QuanpinPreeditor::new());
    let mut ctx = Context::default();
    ctx.raw_input = "nihaoni".to_string();
    ctx.reanalyze(&engine);
    assert_eq!(ctx.caret, 3);
    ctx.confirm = 2;
    ctx.confirm_text = "你好".to_string();
    // An edit shrinks the segmentation below the confirmed boundary.
    ctx.raw_input = "ni".to_string();
    ctx.reanalyze(&engine);
    assert_eq!(ctx.caret, 1);
    assert_eq!(ctx.confirm, 1);
    assert_eq!(ctx.confirm_text, "");
}

#[test]
fn reanalyze_keeps_text_when_confirm_still_fits() {
    let engine = Engine::new(demo_dict(), QuanpinPreeditor::new());
    let mut ctx = Context::default();
    ctx.raw_input = "nihao".to_string();
    ctx.reanalyze(&engine);
    ctx.confirm = 1;
    ctx.confirm_text = "你".to_string();
    ctx.raw_input = "nihao".to_string();
    ctx.reanalyze(&engine);
    assert_eq!(ctx.caret, 2);
    assert_eq!(ctx.confirm, 1);
    assert_eq!(ctx.confirm_text, "你");
}

#[test]
fn context_invariant_holds_through_a_session() {
    let mut session = demo_session();
    let script = [
        InputEvent::Char('n'),
        InputEvent::Char('i'),
        InputEvent::Char('h'),
        InputEvent::Backspace,
        InputEvent::Char('h'),
        InputEvent::Char('a'),
        InputEvent::Char('o'),
        InputEvent::Select(0),
        InputEvent::Enter,
        InputEvent::Char('q'),
        InputEvent::Char('s'),
        InputEvent::Clear,
    ];
    for ev in script {
        let (ui, _) = session.handle(ev);
        assert!(ui.confirm <= ui.caret);
        assert!(ui.caret <= ui.segment.len());
        for c in &ui.candidate_list {
            assert_eq!(c.segment_start, ui.confirm);
            assert!(c.segment_start < c.segment_end);
            assert!(c.segment_end <= ui.caret);
        }
    }
}

#[test]
fn sanitize_keeps_letters_and_breaks() {
    assert_eq!(sanitize_input("Ni Hao, 3!"), "nihao");
    assert_eq!(sanitize_input("xi'AN"), "xi'an");
    assert_eq!(sanitize_input("123"), "");
}

#[test]
fn enter_commits_confirmed_text_alone() {
    let mut ctx = Context::default();
    ctx.confirm_text = "你".to_string();
    let actions = ctx.commit_on_enter();
    assert_eq!(actions, vec![Action::Commit("你".to_string())]);
    assert_eq!(ctx.confirm_text, "");
    assert_eq!(ctx.raw_input, "");
}

#[test]
fn selection_past_caret_is_a_no_op() {
    let engine = Engine::new(demo_dict(), QuanpinPreeditor::new());
    let mut ctx = Context::default();
    ctx.raw_input = "nihao".to_string();
    ctx.reanalyze(&engine);
    // A candidate whose span runs past the caret.
    let list = vec![cand("你好", 100, 0, 3)];
    let actions = ctx.select_from_list(&list, 0);
    assert!(actions.is_empty());
    assert_eq!((ctx.confirm, ctx.caret), (0, 2));
}

#[test]
fn selecting_everything_without_text_resets() {
    let engine = Engine::new(demo_dict(), QuanpinPreeditor::new());
    let mut ctx = Context::default();
    ctx.raw_input = "nihao".to_string();
    ctx.reanalyze(&engine);
    // An empty-text candidate covering the whole span: nothing to commit,
    // so the context resets.
    let list = vec![cand("", 1, 0, 2)];
    let actions = ctx.select_from_list(&list, 0);
    assert!(actions.is_empty());
    assert_eq!(ctx.raw_input, "");
    assert_eq!((ctx.confirm, ctx.caret), (0, 0));
}

#[test]
fn dictionary_exact_results_are_ranked() {
    let d = match TsvDictionary::from_tsv_str("一\tyi\t9\n乙\tyi\t8\n已\tyi\t7\n以\tyi\t9\n") {
        Ok(d) => d,
        Err(_) => panic!("must parse"),
    };
    let r = d.lookup_span(&vec!["yi".to_string()], 0, 1, 9);
    // Weight descending, text ascending on ties; all four entries appear.
    let shown: Vec<(&str, i32)> = r.iter().map(|c| (c.text.as_str(), c.weight)).collect();
    assert_eq!(shown, vec![("一", 9), ("以", 9), ("乙", 8), ("已", 7)]);
}

#[test]
fn dictionary_exact_results_honor_limit_order() {
    let d = match TsvDictionary::from_tsv_str("一\tyi\t9\n乙\tyi\t8\n已\tyi\t7\n") {
        Ok(d) => d,
        Err(_) => panic!("must parse"),
    };
    let r = d.lookup_span(&vec!["yi".to_string()], 0, 1, 2);
    // The two highest-ranked entries survive the cut, in order.
    assert_eq!(r.len(), 2);
    assert_eq!(r[0].text, "一");
    assert_eq!(r[1].text, "乙");
}

#[test]
fn dictionary_completions_come_in_key_order() {
    let d = match TsvDictionary::from_tsv_str(
        "纳\tna\t5\n路\tlu\t4\n那边\tnabian\t3\n南\tnan\t9\n难\tnan\t2\n",
    ) {
        Ok(d) => d,
        Err(_) => panic!("must parse"),
    };
    let r = d.lookup_span(&vec!["na".to_string()], 0, 1, 9);
    // The exact match leads; completions follow in ascending key order,
    // each key's entries ranked by weight then text.
    assert_eq!(r[0].text, "纳");
    assert!(r[0].comment.is_none());
    let comments: Vec<&str> = r[1..].iter().map(|c| c.comment.as_deref().unwrap()).collect();
    assert_eq!(comments, vec!["nabian", "nan", "nan"]);
    assert_eq!(r[2].text, "南");
    assert_eq!(r[3].text, "难");
}

#[test]
fn dictionary_empty_key_returns_nothing() {
    let d = demo_dict();
    let r = d.lookup_span(&vec!["".to_string(), "".to_string()], 0, 2, 9);
    assert!(r.is_empty());
}
