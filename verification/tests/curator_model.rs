use continuum_core::curator::model::{strip_think_block, wrap_no_think};

#[test]
fn wrap_no_think_produces_chatml_with_no_think_directive() {
    let wrapped = wrap_no_think("extract these facts");
    assert!(wrapped.starts_with("<|im_start|>user\n/no_think\n"));
    assert!(wrapped.contains("extract these facts"));
    assert!(wrapped.ends_with("<|im_start|>assistant\n"));
}

#[test]
fn strip_think_block_removes_leading_think_tag() {
    let raw = "<think>\nreasoning about the candidates\n</think>\n\n[{\"a\":1}]";
    assert_eq!(strip_think_block(raw), "[{\"a\":1}]");
}

#[test]
fn strip_think_block_is_noop_without_think_tag() {
    assert_eq!(strip_think_block("  [{\"a\":1}]  "), "[{\"a\":1}]");
}

#[test]
fn strip_think_block_handles_exact_skip_reply() {
    let raw = "<think>this session looks trivial</think>\nSKIP";
    assert_eq!(strip_think_block(raw), "SKIP");
}

#[test]
fn strip_think_block_cuts_behind_the_last_tag() {
    assert_eq!(strip_think_block("a</think>b</think> c "), "c");
    assert_eq!(strip_think_block("</think>"), "");
}
