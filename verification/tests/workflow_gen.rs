//! The CI build-workflow generator.

use chm_scaffold::workflow::build_model;
use chm_scaffold::workflow::build_workflow_text;

fn find_sub(haystack: &[u8], needle: &[u8]) -> Option<usize> {
    if needle.is_empty() || haystack.len() < needle.len() {
        return None;
    }
    let mut i = 0;
    while i + needle.len() <= haystack.len() {
        if &haystack[i..i + needle.len()] == needle {
            return Some(i);
        }
        i += 1;
    }
    None
}

fn has(haystack: &[u8], needle: &str) -> bool {
    find_sub(haystack, needle.as_bytes()).is_some()
}

#[test]
fn generation_is_deterministic() {
    let a = build_workflow_text(&b"demo".to_vec());
    let b = build_workflow_text(&b"demo".to_vec());
    assert_eq!(a, b);
}

#[test]
fn reserved_tokens_are_bare_after_the_pass() {
    let y = build_workflow_text(&b"demo".to_vec());
    assert!(has(&y, "name: Build\non:\n  push:\n"));
    assert!(!has(&y, "'on':"));
    assert!(has(&y, "runs-on: ${{ matrix.runner }}\n"));
    assert!(has(&y, "targets: ${{ matrix.target }}\n"));
    assert!(!has(&y, "'${{"));
    assert!(!has(&y, "}}'"));
    assert!(has(&y, "retention-days: 30\n"));
    assert!(!has(&y, "'30'"));
    assert!(has(&y, "if: !contains(github.event.head_commit.message, '[skip ci]')\n"));
}

#[test]
fn matrix_variants_stand_in_fixed_order() {
    let y = build_workflow_text(&b"demo".to_vec());
    let p1 = find_sub(&y, b"- name: linux-amd64").unwrap();
    let p2 = find_sub(&y, b"- name: win-amd64").unwrap();
    let p3 = find_sub(&y, b"- name: macos-amd64").unwrap();
    let p4 = find_sub(&y, b"- name: macos-arm64").unwrap();
    assert!(p1 < p2 && p2 < p3 && p3 < p4);
    assert!(has(&y, "target: x86_64-unknown-linux-gnu"));
    assert!(has(&y, "target: x86_64-pc-windows-msvc"));
    assert!(has(&y, "target: x86_64-apple-darwin"));
    assert!(has(&y, "target: aarch64-apple-darwin"));
    assert!(has(&y, "lib-suffix: .so"));
    assert!(has(&y, "lib-suffix: .dll"));
    assert!(has(&y, "lib-suffix: .dylib"));
}

#[test]
fn project_name_parameterizes_env_and_artifact() {
    let y = build_workflow_text(&b"widget".to_vec());
    assert!(has(&y, "PROJECT_NAME: widget\n"));
    assert!(has(&y, "name: widget-${{ matrix.name }}-library\n"));
    assert!(has(&y, "path: dist/\n"));
}

#[test]
fn steps_stand_in_execution_order() {
    let y = build_workflow_text(&b"demo".to_vec());
    let order = [
        "- name: Checkout",
        "- name: Install Rust",
        "- name: Setup Cache",
        "- name: Create Dist Directory",
        "- name: Build Library",
        "- name: Prepare Release Binary",
        "- name: Upload Artifact",
    ];
    let mut last = 0;
    for step in order.iter() {
        let p = find_sub(&y, step.as_bytes()).unwrap();
        assert!(p >= last);
        last = p;
    }
    assert!(has(&y, "uses: actions/checkout@v4"));
    assert!(has(&y, "run: mkdir -p dist\n"));
    assert!(has(&y, "run: |\n"));
    assert!(has(&y, "shell: bash\n"));
    assert!(has(&y, "cp \"${LIB_OUTPUT}\" \"./dist/${LIB_RELEASE}\""));
}

#[test]
fn model_holds_the_fixed_matrix() {
    let m = build_model(&b"demo".to_vec());
    assert_eq!(m.matrix.len(), 4);
    assert_eq!(m.matrix[0].runner, b"ubuntu-latest".to_vec());
    assert_eq!(m.matrix[1].runner, b"windows-latest".to_vec());
    assert_eq!(m.matrix[2].runner, b"macos-latest".to_vec());
    assert_eq!(m.matrix[3].target, b"aarch64-apple-darwin".to_vec());
    assert_eq!(m.steps.len(), 7);
    assert_eq!(m.branches, vec![b"main".to_vec()]);
    assert_eq!(m.paths.len(), 3);
}
