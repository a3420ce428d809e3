//! The CI build-workflow generator.
//!
//! A fixed declarative model of the build job — trigger, environment,
//! four-variant platform matrix, ordered step list — is built for one
//! project name and rendered to workflow text.  The renderer quotes
//! scalars conservatively; a post-serialization pass then restores the
//! exact token classes that the target configuration language needs bare:
//! the `on` trigger key, expression braces, the skip-commit condition and
//! the retention-days number.  The whole output is a function of the
//! project name alone.

use vstd::prelude::*;

use crate::bytestr::push_all;
use crate::bytestr::lit_bytes;
use crate::json::is_digit;
use vstd::string::StringSliceAdditionalSpecFns;

verus! {

// ---------------------------------------------------------------------
// The model.
// ---------------------------------------------------------------------

/// One platform variant of the build matrix.
pub struct MatrixTarget {
    /// The variant's display name.
    pub name: Vec<u8>,
    /// The runner label.
    pub runner: Vec<u8>,
    /// The build-target triple.
    pub target: Vec<u8>,
    /// The produced library's suffix.
    pub lib_suffix: Vec<u8>,
}

/// One step of the build job: an action reference with parameters, or a
/// shell command.
pub struct Step {
    /// The step's display name.
    pub name: Vec<u8>,
    /// The action reference, where the step uses one.
    pub uses: Option<Vec<u8>>,
    /// The action parameters, in order; empty where none are passed.
    pub with: Vec<(Vec<u8>, Vec<u8>)>,
    /// The shell command, as its lines; empty where the step is an action.
    pub run: Vec<Vec<u8>>,
    /// The shell kind, where one is forced.
    pub shell: Option<Vec<u8>>,
}

/// The whole workflow: name, trigger, environment and the one build job.
pub struct WorkflowConfig {
    /// The workflow's name.
    pub name: Vec<u8>,
    /// The branches whose pushes trigger the workflow.
    pub branches: Vec<Vec<u8>>,
    /// The path filters of the trigger.
    pub paths: Vec<Vec<u8>>,
    /// The job environment, in order.
    pub env: Vec<(Vec<u8>, Vec<u8>)>,
    /// The job's condition expression.
    pub condition: Vec<u8>,
    /// The job's runner expression.
    pub runs_on: Vec<u8>,
    /// The platform matrix, in its fixed order.
    pub matrix: Vec<MatrixTarget>,
    /// The job's steps; their order is the execution order.
    pub steps: Vec<Step>,
}

/// The mirror of one platform variant.
pub struct TargetV {
    /// The variant's display name.
    pub name: Seq<u8>,
    /// The runner label.
    pub runner: Seq<u8>,
    /// The build-target triple.
    pub target: Seq<u8>,
    /// The produced library's suffix.
    pub lib_suffix: Seq<u8>,
}

/// The mirror of one step.
pub struct StepV {
    /// The step's display name.
    pub name: Seq<u8>,
    /// The action reference, where the step uses one.
    pub uses: Option<Seq<u8>>,
    /// The action parameters, in order.
    pub with: Seq<(Seq<u8>, Seq<u8>)>,
    /// The shell command, as its lines.
    pub run: Seq<Seq<u8>>,
    /// The shell kind, where one is forced.
    pub shell: Option<Seq<u8>>,
}

/// The mirror of the whole workflow.
pub struct WorkflowV {
    /// The workflow's name.
    pub name: Seq<u8>,
    /// The branches whose pushes trigger the workflow.
    pub branches: Seq<Seq<u8>>,
    /// The path filters of the trigger.
    pub paths: Seq<Seq<u8>>,
    /// The job environment, in order.
    pub env: Seq<(Seq<u8>, Seq<u8>)>,
    /// The job's condition expression.
    pub condition: Seq<u8>,
    /// The job's runner expression.
    pub runs_on: Seq<u8>,
    /// The platform matrix, in its fixed order.
    pub matrix: Seq<TargetV>,
    /// The job's steps, in execution order.
    pub steps: Seq<StepV>,
}

/// The view of a platform variant.
pub open spec fn target_view(t: MatrixTarget) -> TargetV {
    TargetV { name: t.name@, runner: t.runner@, target: t.target@, lib_suffix: t.lib_suffix@ }
}

/// The view of optional text.
pub open spec fn optb_view(o: Option<Vec<u8>>) -> Option<Seq<u8>> {
    match o {
        Option::None => None,
        Option::Some(v) => Some(v@),
    }
}

/// The view of a pair list.
pub open spec fn pairs_bview(ps: Seq<(Vec<u8>, Vec<u8>)>) -> Seq<(Seq<u8>, Seq<u8>)> {
    Seq::new(ps.len(), |i: int| (ps[i].0@, ps[i].1@))
}

/// The view of one step.
pub open spec fn step_view(s: Step) -> StepV {
    StepV {
        name: s.name@,
        uses: optb_view(s.uses),
        with: pairs_bview(s.with@),
        run: s.run.deep_view(),
        shell: optb_view(s.shell),
    }
}

/// The view of the whole workflow.
pub open spec fn wf_view(c: WorkflowConfig) -> WorkflowV {
    WorkflowV {
        name: c.name@,
        branches: c.branches.deep_view(),
        paths: c.paths.deep_view(),
        env: pairs_bview(c.env@),
        condition: c.condition@,
        runs_on: c.runs_on@,
        matrix: Seq::new(c.matrix@.len(), |i: int| target_view(c.matrix@[i])),
        steps: Seq::new(c.steps@.len(), |i: int| step_view(c.steps@[i])),
    }
}

// ---------------------------------------------------------------------
// The fixed model.
// ---------------------------------------------------------------------

/// The job's condition: skip where the head commit message asks for it.
pub open spec fn skip_ci_cond() -> Seq<u8> {
    seq![33u8, 99u8, 111u8, 110u8, 116u8, 97u8, 105u8, 110u8, 115u8, 40u8, 103u8, 105u8, 116u8, 104u8, 117u8, 98u8, 46u8, 101u8, 118u8, 101u8, 110u8, 116u8, 46u8, 104u8, 101u8, 97u8, 100u8, 95u8, 99u8, 111u8, 109u8, 109u8, 105u8, 116u8, 46u8, 109u8, 101u8, 115u8, 115u8, 97u8, 103u8, 101u8, 44u8, 32u8, 39u8, 91u8, 115u8, 107u8, 105u8, 112u8, 32u8, 99u8, 105u8, 93u8, 39u8, 41u8]
}

/// The bytes of the job's condition.
pub fn skip_ci_cond_bytes() -> (r: Vec<u8>)
    ensures
        r@ == skip_ci_cond(),
{
    let v: Vec<u8> = vec![33, 99, 111, 110, 116, 97, 105, 110, 115, 40, 103, 105, 116, 104, 117, 98, 46, 101, 118, 101, 110, 116, 46, 104, 101, 97, 100, 95, 99, 111, 109, 109, 105, 116, 46, 109, 101, 115, 115, 97, 103, 101, 44, 32, 39, 91, 115, 107, 105, 112, 32, 99, 105, 93, 39, 41];
    assert(v@ =~= skip_ci_cond());
    v
}

/// The four platform variants, in their fixed order.
pub open spec fn matrix_spec() -> Seq<TargetV> {
    seq![
        TargetV {
            name: "linux-amd64".spec_bytes(),
            runner: "ubuntu-latest".spec_bytes(),
            target: "x86_64-unknown-linux-gnu".spec_bytes(),
            lib_suffix: ".so".spec_bytes(),
        },
        TargetV {
            name: "win-amd64".spec_bytes(),
            runner: "windows-latest".spec_bytes(),
            target: "x86_64-pc-windows-msvc".spec_bytes(),
            lib_suffix: ".dll".spec_bytes(),
        },
        TargetV {
            name: "macos-amd64".spec_bytes(),
            runner: "macos-latest".spec_bytes(),
            target: "x86_64-apple-darwin".spec_bytes(),
            lib_suffix: ".dylib".spec_bytes(),
        },
        TargetV {
            name: "macos-arm64".spec_bytes(),
            runner: "macos-latest".spec_bytes(),
            target: "aarch64-apple-darwin".spec_bytes(),
            lib_suffix: ".dylib".spec_bytes(),
        },
    ]
}

/// The lines of the release-binary preparation script.
pub open spec fn prepare_lines() -> Seq<Seq<u8>> {
    seq![
        "if [[ \"${{ matrix.target }}\" == \"x86_64-pc-windows-msvc\" ]]; then".spec_bytes(),
        "    LIB_PREFIX=\"\"".spec_bytes(),
        "    LIB_OUTPUT=\"target/${{ matrix.target }}/release/${PROJECT_NAME}${{ matrix.lib-suffix }}\"".spec_bytes(),
        "else".spec_bytes(),
        "    LIB_PREFIX=\"lib\"".spec_bytes(),
        "    LIB_OUTPUT=\"target/${{ matrix.target }}/release/${LIB_PREFIX}${PROJECT_NAME}${{ matrix.lib-suffix }}\"".spec_bytes(),
        "fi".spec_bytes(),
        "LIB_RELEASE=\"${PROJECT_NAME}${{ matrix.lib-suffix }}\"".spec_bytes(),
        "if [ ! -f \"${LIB_OUTPUT}\" ]; then".spec_bytes(),
        "    echo \"Library not found at ${LIB_OUTPUT}\"".spec_bytes(),
        "    exit 1".spec_bytes(),
        "fi".spec_bytes(),
        "cp \"${LIB_OUTPUT}\" \"./dist/${LIB_RELEASE}\"".spec_bytes(),
        "ls -l dist/".spec_bytes(),
    ]
}

/// The checkout step.
pub open spec fn checkout_step() -> StepV {
    StepV {
        name: "Checkout".spec_bytes(),
        uses: Some("actions/checkout@v4".spec_bytes()),
        with: Seq::empty(),
        run: Seq::empty(),
        shell: None,
    }
}

/// The toolchain-installation step.
pub open spec fn install_step() -> StepV {
    StepV {
        name: "Install Rust".spec_bytes(),
        uses: Some("dtolnay/rust-toolchain@stable".spec_bytes()),
        with: seq![("targets".spec_bytes(), "${{ matrix.target }}".spec_bytes())],
        run: Seq::empty(),
        shell: None,
    }
}

/// The cache-setup step.
pub open spec fn cache_step() -> StepV {
    StepV {
        name: "Setup Cache".spec_bytes(),
        uses: Some("Swatinem/rust-cache@v2".spec_bytes()),
        with: Seq::empty(),
        run: Seq::empty(),
        shell: None,
    }
}

/// The dist-directory step.
pub open spec fn mkdir_step() -> StepV {
    StepV {
        name: "Create Dist Directory".spec_bytes(),
        uses: None,
        with: Seq::empty(),
        run: seq!["mkdir -p dist".spec_bytes()],
        shell: None,
    }
}

/// The library-build step.
pub open spec fn buildlib_step() -> StepV {
    StepV {
        name: "Build Library".spec_bytes(),
        uses: None,
        with: Seq::empty(),
        run: seq![
            "cargo build --verbose --locked --release --target ${{ matrix.target }}".spec_bytes(),
        ],
        shell: None,
    }
}

/// The release-binary preparation step.
pub open spec fn prepare_step() -> StepV {
    StepV {
        name: "Prepare Release Binary".spec_bytes(),
        uses: None,
        with: Seq::empty(),
        run: prepare_lines(),
        shell: Some("bash".spec_bytes()),
    }
}

/// The artifact-upload step; the artifact name carries the project name.
pub open spec fn upload_step(project: Seq<u8>) -> StepV {
    StepV {
        name: "Upload Artifact".spec_bytes(),
        uses: Some("actions/upload-artifact@v4".spec_bytes()),
        with: seq![
            ("name".spec_bytes(), project + "-${{ matrix.name }}-library".spec_bytes()),
            ("path".spec_bytes(), "dist/".spec_bytes()),
            ("retention-days".spec_bytes(), "30".spec_bytes()),
        ],
        run: Seq::empty(),
        shell: None,
    }
}

/// The seven steps of the build job, for one project name, in execution
/// order.
pub open spec fn steps_spec(project: Seq<u8>) -> Seq<StepV> {
    seq![
        checkout_step(),
        install_step(),
        cache_step(),
        mkdir_step(),
        buildlib_step(),
        prepare_step(),
        upload_step(project),
    ]
}

/// The whole fixed model for one project name.
pub open spec fn model_spec(project: Seq<u8>) -> WorkflowV {
    WorkflowV {
        name: "Build".spec_bytes(),
        branches: seq!["main".spec_bytes()],
        paths: seq![
            "src/**".spec_bytes(),
            "Cargo.toml".spec_bytes(),
            ".github/workflows/build.yml".spec_bytes(),
        ],
        env: seq![("PROJECT_NAME".spec_bytes(), project)],
        condition: skip_ci_cond(),
        runs_on: "${{ matrix.runner }}".spec_bytes(),
        matrix: matrix_spec(),
        steps: steps_spec(project),
    }
}

// ---------------------------------------------------------------------
// Rendering.
// ---------------------------------------------------------------------

/// The bytes of a literal.
pub open spec fn lit(s: &str) -> Seq<u8> {
    s.spec_bytes()
}

/// A line break.
pub open spec fn nl() -> Seq<u8> {
    seq![10u8]
}

/// Nothing but decimal digits: such a scalar would read as a number.
pub open spec fn all_digits(v: Seq<u8>) -> bool {
    v.len() > 0 && forall|i: int| 0 <= i < v.len() ==> is_digit(#[trigger] v[i])
}

/// A byte that forces quoting anywhere in a scalar.
pub open spec fn risky_byte(b: u8) -> bool {
    b == 58 || b == 35 || b == 10
}

/// The renderer's conservative quoting rule: empty scalars, the reserved
/// word `on`, expression and directive openers, leading spaces, numbers,
/// and scalars with mapping or comment syntax inside are quoted.
pub open spec fn needs_quote(v: Seq<u8>) -> bool {
    ||| v.len() == 0
    ||| v == lit("on")
    ||| (v.len() > 0 && (v[0] == 33 || v[0] == 36 || v[0] == 32 || v[0] == 45))
    ||| all_digits(v)
    ||| exists|i: int| 0 <= i < v.len() && risky_byte(#[trigger] v[i])
}

/// A scalar's body inside single quotes: every quote doubled.
pub open spec fn dq(v: Seq<u8>) -> Seq<u8>
    decreases v.len(),
{
    if v.len() == 0 {
        Seq::empty()
    } else {
        dq(v.drop_last()) + (if v.last() == 39 {
            seq![39u8, 39u8]
        } else {
            seq![v.last()]
        })
    }
}

/// A rendered scalar: quoted where the quoting rule asks for it.
pub open spec fn yval(v: Seq<u8>) -> Seq<u8> {
    if needs_quote(v) {
        seq![39u8] + dq(v) + seq![39u8]
    } else {
        v
    }
}

/// A rendered scalar list, one line each.
pub open spec fn render_list(xs: Seq<Seq<u8>>, pre: Seq<u8>) -> Seq<u8>
    decreases xs.len(),
{
    if xs.len() == 0 {
        Seq::empty()
    } else {
        render_list(xs.drop_last(), pre) + pre + yval(xs.last()) + nl()
    }
}

/// A rendered key/value list, one line each.
pub open spec fn render_pairs(ps: Seq<(Seq<u8>, Seq<u8>)>, pre: Seq<u8>) -> Seq<u8>
    decreases ps.len(),
{
    if ps.len() == 0 {
        Seq::empty()
    } else {
        render_pairs(ps.drop_last(), pre) + pre + ps.last().0 + lit(": ") + yval(ps.last().1)
            + nl()
    }
}

/// A rendered command block, one raw line each.
pub open spec fn render_block(ls: Seq<Seq<u8>>) -> Seq<u8>
    decreases ls.len(),
{
    if ls.len() == 0 {
        Seq::empty()
    } else {
        render_block(ls.drop_last()) + lit("        ") + ls.last() + nl()
    }
}

/// One rendered platform variant.
pub open spec fn render_target(t: TargetV) -> Seq<u8> {
    lit("        - name: ") + yval(t.name) + nl() + lit("          runner: ") + yval(t.runner)
        + nl() + lit("          target: ") + yval(t.target) + nl() + lit("          lib-suffix: ")
        + yval(t.lib_suffix) + nl()
}

/// The rendered platform matrix, in order.
pub open spec fn render_targets(ts: Seq<TargetV>) -> Seq<u8>
    decreases ts.len(),
{
    if ts.len() == 0 {
        Seq::empty()
    } else {
        render_targets(ts.drop_last()) + render_target(ts.last())
    }
}

/// The rendered action reference of a step, where it uses one.
pub open spec fn step_uses_part(s: StepV) -> Seq<u8> {
    match s.uses {
        Option::Some(u) => lit("      uses: ") + yval(u) + nl(),
        Option::None => Seq::empty(),
    }
}

/// The rendered action parameters of a step, where it passes any.
pub open spec fn step_with_part(s: StepV) -> Seq<u8> {
    if s.with.len() > 0 {
        lit("      with:") + nl() + render_pairs(s.with, lit("        "))
    } else {
        Seq::empty()
    }
}

/// The rendered shell command of a step: inline for one line, a block
/// for several.
pub open spec fn step_run_part(s: StepV) -> Seq<u8> {
    if s.run.len() == 1 {
        lit("      run: ") + yval(s.run[0]) + nl()
    } else if s.run.len() > 1 {
        lit("      run: |") + nl() + render_block(s.run)
    } else {
        Seq::empty()
    }
}

/// The rendered shell kind of a step, where one is forced.
pub open spec fn step_shell_part(s: StepV) -> Seq<u8> {
    match s.shell {
        Option::Some(sh) => lit("      shell: ") + yval(sh) + nl(),
        Option::None => Seq::empty(),
    }
}

/// One rendered step: name, action reference, parameters, command, shell
/// kind — each only where the step has it.
pub open spec fn render_step(s: StepV) -> Seq<u8> {
    lit("    - name: ") + yval(s.name) + nl() + step_uses_part(s) + step_with_part(s)
        + step_run_part(s) + step_shell_part(s)
}

/// The rendered step list, in execution order.
pub open spec fn render_steps(ss: Seq<StepV>) -> Seq<u8>
    decreases ss.len(),
{
    if ss.len() == 0 {
        Seq::empty()
    } else {
        render_steps(ss.drop_last()) + render_step(ss.last())
    }
}

/// The whole rendered workflow, before the post-serialization pass.
pub open spec fn render_spec(w: WorkflowV) -> Seq<u8> {
    lit("name: ") + yval(w.name) + nl() + lit("'on':") + nl() + lit("  push:") + nl() + lit(
        "    branches:",
    ) + nl() + render_list(w.branches, lit("    - ")) + lit("    paths:") + nl() + render_list(
        w.paths,
        lit("    - "),
    ) + lit("env:") + nl() + render_pairs(w.env, lit("  ")) + lit("jobs:") + nl() + lit("  build:")
        + nl() + lit("    if: ") + yval(w.condition) + nl() + lit("    runs-on: ") + yval(w.runs_on)
        + nl() + lit("    strategy:") + nl() + lit("      matrix:") + nl() + lit("        inclu")
        + lit("de:") + nl() + render_targets(w.matrix) + lit("    steps:") + nl() + render_steps(
        w.steps,
    )
}

// ---------------------------------------------------------------------
// The executable renderer.
// ---------------------------------------------------------------------

/// The element-wise view of a list of byte strings.
proof fn lemma_deep_bytes(v: &Vec<Vec<u8>>)
    ensures
        v.deep_view().len() == v@.len(),
        forall|i: int| 0 <= i < v@.len() ==> #[trigger] v.deep_view()[i] == v@[i]@,
{
    assert forall|i: int| 0 <= i < v@.len() implies #[trigger] v.deep_view()[i] == v@[i]@ by {
        assert(v@[i].deep_view() =~= v@[i]@);
    }
}

/// Renders a scalar's quoted body.
fn dq_exec(v: &Vec<u8>) -> (r: Vec<u8>)
    ensures
        r@ == dq(v@),
{
    let n = v.len();
    let mut out: Vec<u8> = Vec::new();
    let mut i: usize = 0;
    while i < n
        invariant
            0 <= i <= n,
            n == v@.len(),
            out@ == dq(v@.take(i as int)),
        decreases n - i,
    {
        let b = v[i];
        if b == 39 {
            out.push(39);
            out.push(39);
        } else {
            out.push(b);
        }
        proof {
            assert(v@.take(i + 1).drop_last() =~= v@.take(i as int));
            assert(v@.take(i + 1).last() == v@[i as int]);
            assert(out@ =~= dq(v@.take(i + 1)));
        }
        i = i + 1;
    }
    proof {
        assert(v@.take(n as int) =~= v@);
    }
    out
}

/// Decides the quoting rule.
fn needs_quote_exec(v: &Vec<u8>) -> (r: bool)
    ensures
        r == needs_quote(v@),
{
    let n = v.len();
    if n == 0 {
        return true;
    }
    let on_word = crate::bytestr::lit_bytes("on");
    if crate::bytestr::bytes_eq(v, &on_word) {
        return true;
    }
    let b0 = v[0];
    if b0 == 33 || b0 == 36 || b0 == 32 || b0 == 45 {
        return true;
    }
    let mut i: usize = 0;
    let mut digits = true;
    let mut risky = false;
    while i < n
        invariant
            0 <= i <= n,
            n == v@.len(),
            digits <==> (forall|q: int| 0 <= q < i ==> is_digit(#[trigger] v@[q])),
            risky <==> (exists|q: int| 0 <= q < i && risky_byte(#[trigger] v@[q])),
        decreases n - i,
    {
        let b = v[i];
        if !(48 <= b && b <= 57) {
            digits = false;
        }
        if b == 58 || b == 35 || b == 10 {
            risky = true;
        }
        i = i + 1;
    }
    if digits || risky {
        return true;
    }
    assert(!all_digits(v@));
    assert(!(exists|q: int| 0 <= q < v@.len() && risky_byte(#[trigger] v@[q])));
    assert(!needs_quote(v@));
    false
}

/// Appends a rendered scalar.
fn append_yval(v: &Vec<u8>, out: &mut Vec<u8>)
    ensures
        final(out)@ == old(out)@ + yval(v@),
{
    if needs_quote_exec(v) {
        out.push(39);
        let body = dq_exec(v);
        push_all(out, body.as_slice());
        out.push(39);
        assert(out@ =~= old(out)@ + (seq![39u8] + dq(v@) + seq![39u8]));
    } else {
        push_all(out, v.as_slice());
    }
}

/// Appends a literal.
fn append_lit(s: &str, out: &mut Vec<u8>)
    ensures
        final(out)@ == old(out)@ + lit(s),
{
    let b = crate::bytestr::lit_bytes(s);
    push_all(out, b.as_slice());
}

/// Appends a rendered scalar list.
fn append_list(xs: &Vec<Vec<u8>>, pre: &str, out: &mut Vec<u8>)
    ensures
        final(out)@ == old(out)@ + render_list(xs.deep_view(), lit(pre)),
{
    proof {
        lemma_deep_bytes(xs);
    }
    let ghost dv = xs.deep_view();
    let n = xs.len();
    let mut i: usize = 0;
    while i < n
        invariant
            0 <= i <= n,
            n == xs@.len(),
            dv == xs.deep_view(),
            dv.len() == n,
            forall|q: int| 0 <= q < n ==> #[trigger] dv[q] == xs@[q]@,
            out@ == old(out)@ + render_list(dv.take(i as int), lit(pre)),
        decreases n - i,
    {
        append_lit(pre, out);
        append_yval(&xs[i], out);
        out.push(10);
        proof {
            assert(dv.take(i + 1).drop_last() =~= dv.take(i as int));
            assert(dv.take(i + 1).last() == dv[i as int]);
            assert(out@ =~= old(out)@ + render_list(dv.take(i + 1), lit(pre)));
        }
        i = i + 1;
    }
    proof {
        assert(dv.take(n as int) =~= dv);
    }
}

/// Appends a rendered key/value list.
fn append_pairs(ps: &Vec<(Vec<u8>, Vec<u8>)>, pre: &str, out: &mut Vec<u8>)
    ensures
        final(out)@ == old(out)@ + render_pairs(pairs_bview(ps@), lit(pre)),
{
    let ghost dv = pairs_bview(ps@);
    let n = ps.len();
    let mut i: usize = 0;
    while i < n
        invariant
            0 <= i <= n,
            n == ps@.len(),
            dv == pairs_bview(ps@),
            dv.len() == n,
            out@ == old(out)@ + render_pairs(dv.take(i as int), lit(pre)),
        decreases n - i,
    {
        proof {
            assert(dv[i as int] == (ps@[i as int].0@, ps@[i as int].1@));
        }
        append_lit(pre, out);
        push_all(out, ps[i].0.as_slice());
        append_lit(": ", out);
        append_yval(&ps[i].1, out);
        out.push(10);
        proof {
            assert(dv.take(i + 1).drop_last() =~= dv.take(i as int));
            assert(dv.take(i + 1).last() == dv[i as int]);
            assert(out@ =~= old(out)@ + render_pairs(dv.take(i + 1), lit(pre)));
        }
        i = i + 1;
    }
    proof {
        assert(dv.take(n as int) =~= dv);
    }
}

/// Appends a rendered command block.
fn append_block(ls: &Vec<Vec<u8>>, out: &mut Vec<u8>)
    ensures
        final(out)@ == old(out)@ + render_block(ls.deep_view()),
{
    proof {
        lemma_deep_bytes(ls);
    }
    let ghost dv = ls.deep_view();
    let n = ls.len();
    let mut i: usize = 0;
    while i < n
        invariant
            0 <= i <= n,
            n == ls@.len(),
            dv == ls.deep_view(),
            dv.len() == n,
            forall|q: int| 0 <= q < n ==> #[trigger] dv[q] == ls@[q]@,
            out@ == old(out)@ + render_block(dv.take(i as int)),
        decreases n - i,
    {
        append_lit("        ", out);
        push_all(out, ls[i].as_slice());
        out.push(10);
        proof {
            assert(dv.take(i + 1).drop_last() =~= dv.take(i as int));
            assert(dv.take(i + 1).last() == dv[i as int]);
            assert(out@ =~= old(out)@ + render_block(dv.take(i + 1)));
        }
        i = i + 1;
    }
    proof {
        assert(dv.take(n as int) =~= dv);
    }
}

/// Appends the rendered platform matrix.
#[verifier::rlimit(100)]
fn append_targets(ts: &Vec<MatrixTarget>, out: &mut Vec<u8>)
    ensures
        final(out)@ == old(out)@ + render_targets(
            Seq::new(ts@.len(), |i: int| target_view(ts@[i])),
        ),
{
    let ghost dv = Seq::new(ts@.len(), |i: int| target_view(ts@[i]));
    let n = ts.len();
    let mut i: usize = 0;
    while i < n
        invariant
            0 <= i <= n,
            n == ts@.len(),
            dv == Seq::new(ts@.len(), |q: int| target_view(ts@[q])),
            dv.len() == n,
            out@ == old(out)@ + render_targets(dv.take(i as int)),
        decreases n - i,
    {
        let t = &ts[i];
        proof {
            assert(dv[i as int] == target_view(ts@[i as int]));
        }
        append_lit("        - name: ", out);
        append_yval(&t.name, out);
        out.push(10);
        append_lit("          runner: ", out);
        append_yval(&t.runner, out);
        out.push(10);
        append_lit("          target: ", out);
        append_yval(&t.target, out);
        out.push(10);
        append_lit("          lib-suffix: ", out);
        append_yval(&t.lib_suffix, out);
        out.push(10);
        proof {
            assert(dv.take(i + 1).drop_last() =~= dv.take(i as int));
            assert(dv.take(i + 1).last() == dv[i as int]);
            assert(out@ =~= old(out)@ + render_targets(dv.take(i + 1)));
        }
        i = i + 1;
    }
    proof {
        assert(dv.take(n as int) =~= dv);
    }
}

/// Appends the rendered action reference of a step.
fn append_step_uses(s: &Step, out: &mut Vec<u8>)
    ensures
        final(out)@ == old(out)@ + step_uses_part(step_view(*s)),
{
    match &s.uses {
        Option::Some(u) => {
            append_lit("      uses: ", out);
            append_yval(u, out);
            out.push(10);
            assert(out@ =~= old(out)@ + step_uses_part(step_view(*s)));
        },
        Option::None => {
            assert(out@ =~= old(out)@ + step_uses_part(step_view(*s)));
        },
    }
}

/// Appends the rendered action parameters of a step.
fn append_step_with(s: &Step, out: &mut Vec<u8>)
    ensures
        final(out)@ == old(out)@ + step_with_part(step_view(*s)),
{
    if s.with.len() > 0 {
        append_lit("      with:", out);
        out.push(10);
        append_pairs(&s.with, "        ", out);
        assert(out@ =~= old(out)@ + step_with_part(step_view(*s)));
    } else {
        assert(out@ =~= old(out)@ + step_with_part(step_view(*s)));
    }
}

/// Appends the rendered shell command of a step.
fn append_step_run(s: &Step, out: &mut Vec<u8>)
    ensures
        final(out)@ == old(out)@ + step_run_part(step_view(*s)),
{
    proof {
        lemma_deep_bytes(&s.run);
    }
    if s.run.len() == 1 {
        append_lit("      run: ", out);
        append_yval(&s.run[0], out);
        out.push(10);
        assert(out@ =~= old(out)@ + step_run_part(step_view(*s)));
    } else if s.run.len() > 1 {
        append_lit("      run: |", out);
        out.push(10);
        append_block(&s.run, out);
        assert(out@ =~= old(out)@ + step_run_part(step_view(*s)));
    } else {
        assert(out@ =~= old(out)@ + step_run_part(step_view(*s)));
    }
}

/// Appends the rendered shell kind of a step.
fn append_step_shell(s: &Step, out: &mut Vec<u8>)
    ensures
        final(out)@ == old(out)@ + step_shell_part(step_view(*s)),
{
    match &s.shell {
        Option::Some(sh) => {
            append_lit("      shell: ", out);
            append_yval(sh, out);
            out.push(10);
            assert(out@ =~= old(out)@ + step_shell_part(step_view(*s)));
        },
        Option::None => {
            assert(out@ =~= old(out)@ + step_shell_part(step_view(*s)));
        },
    }
}

/// Appends one rendered step.
fn append_step(s: &Step, out: &mut Vec<u8>)
    ensures
        final(out)@ == old(out)@ + render_step(step_view(*s)),
{
    let ghost base = out@;
    append_lit("    - name: ", out);
    append_yval(&s.name, out);
    out.push(10);
    append_step_uses(s, out);
    append_step_with(s, out);
    append_step_run(s, out);
    append_step_shell(s, out);
    assert(out@ =~= base + render_step(step_view(*s)));
}

/// Appends the rendered step list.
#[verifier::rlimit(100)]
fn append_steps(ss: &Vec<Step>, out: &mut Vec<u8>)
    ensures
        final(out)@ == old(out)@ + render_steps(Seq::new(ss@.len(), |i: int| step_view(ss@[i]))),
{
    let ghost dv = Seq::new(ss@.len(), |i: int| step_view(ss@[i]));
    let n = ss.len();
    let mut i: usize = 0;
    while i < n
        invariant
            0 <= i <= n,
            n == ss@.len(),
            dv == Seq::new(ss@.len(), |q: int| step_view(ss@[q])),
            dv.len() == n,
            out@ == old(out)@ + render_steps(dv.take(i as int)),
        decreases n - i,
    {
        proof {
            assert(dv[i as int] == step_view(ss@[i as int]));
        }
        append_step(&ss[i], out);
        proof {
            assert(dv.take(i + 1).drop_last() =~= dv.take(i as int));
            assert(dv.take(i + 1).last() == dv[i as int]);
            assert(out@ =~= old(out)@ + render_steps(dv.take(i + 1)));
        }
        i = i + 1;
    }
    proof {
        assert(dv.take(n as int) =~= dv);
    }
}

/// Renders a workflow model to text, before the post-serialization pass.
#[verifier::rlimit(100)]
pub fn serialize(c: &WorkflowConfig) -> (r: Vec<u8>)
    ensures
        r@ == render_spec(wf_view(*c)),
{
    let mut out: Vec<u8> = Vec::new();
    append_lit("name: ", &mut out);
    append_yval(&c.name, &mut out);
    out.push(10);
    append_lit("'on':", &mut out);
    out.push(10);
    append_lit("  push:", &mut out);
    out.push(10);
    append_lit("    branches:", &mut out);
    out.push(10);
    append_list(&c.branches, "    - ", &mut out);
    append_lit("    paths:", &mut out);
    out.push(10);
    append_list(&c.paths, "    - ", &mut out);
    append_lit("env:", &mut out);
    out.push(10);
    append_pairs(&c.env, "  ", &mut out);
    append_lit("jobs:", &mut out);
    out.push(10);
    append_lit("  build:", &mut out);
    out.push(10);
    append_lit("    if: ", &mut out);
    append_yval(&c.condition, &mut out);
    out.push(10);
    append_lit("    runs-on: ", &mut out);
    append_yval(&c.runs_on, &mut out);
    out.push(10);
    append_lit("    strategy:", &mut out);
    out.push(10);
    append_lit("      matrix:", &mut out);
    out.push(10);
    append_lit("        inclu", &mut out);
    append_lit("de:", &mut out);
    out.push(10);
    append_targets(&c.matrix, &mut out);
    append_lit("    steps:", &mut out);
    out.push(10);
    append_steps(&c.steps, &mut out);
    proof {
        assert(out@ =~= render_spec(wf_view(*c)));
    }
    out
}

// ---------------------------------------------------------------------
// Building the fixed model.
// ---------------------------------------------------------------------

/// Builds the platform matrix, in its fixed order.
fn build_matrix() -> (m: Vec<MatrixTarget>)
    ensures
        Seq::new(m@.len(), |i: int| target_view(m@[i])) == matrix_spec(),
{
    let m: Vec<MatrixTarget> = vec![
        MatrixTarget {
            name: lit_bytes("linux-amd64"),
            runner: lit_bytes("ubuntu-latest"),
            target: lit_bytes("x86_64-unknown-linux-gnu"),
            lib_suffix: lit_bytes(".so"),
        },
        MatrixTarget {
            name: lit_bytes("win-amd64"),
            runner: lit_bytes("windows-latest"),
            target: lit_bytes("x86_64-pc-windows-msvc"),
            lib_suffix: lit_bytes(".dll"),
        },
        MatrixTarget {
            name: lit_bytes("macos-amd64"),
            runner: lit_bytes("macos-latest"),
            target: lit_bytes("x86_64-apple-darwin"),
            lib_suffix: lit_bytes(".dylib"),
        },
        MatrixTarget {
            name: lit_bytes("macos-arm64"),
            runner: lit_bytes("macos-latest"),
            target: lit_bytes("aarch64-apple-darwin"),
            lib_suffix: lit_bytes(".dylib"),
        },
    ];
    proof {
        assert(Seq::new(m@.len(), |i: int| target_view(m@[i])) =~= matrix_spec());
    }
    m
}

/// Builds the lines of the release-binary preparation script.
fn build_prepare_lines() -> (ls: Vec<Vec<u8>>)
    ensures
        ls.deep_view() == prepare_lines(),
{
    let ls: Vec<Vec<u8>> = vec![
        lit_bytes("if [[ \"${{ matrix.target }}\" == \"x86_64-pc-windows-msvc\" ]]; then"),
        lit_bytes("    LIB_PREFIX=\"\""),
        lit_bytes(
            "    LIB_OUTPUT=\"target/${{ matrix.target }}/release/${PROJECT_NAME}${{ matrix.lib-suffix }}\"",
        ),
        lit_bytes("else"),
        lit_bytes("    LIB_PREFIX=\"lib\""),
        lit_bytes(
            "    LIB_OUTPUT=\"target/${{ matrix.target }}/release/${LIB_PREFIX}${PROJECT_NAME}${{ matrix.lib-suffix }}\"",
        ),
        lit_bytes("fi"),
        lit_bytes("LIB_RELEASE=\"${PROJECT_NAME}${{ matrix.lib-suffix }}\""),
        lit_bytes("if [ ! -f \"${LIB_OUTPUT}\" ]; then"),
        lit_bytes("    echo \"Library not found at ${LIB_OUTPUT}\""),
        lit_bytes("    exit 1"),
        lit_bytes("fi"),
        lit_bytes("cp \"${LIB_OUTPUT}\" \"./dist/${LIB_RELEASE}\""),
        lit_bytes("ls -l dist/"),
    ];
    proof {
        lemma_deep_bytes(&ls);
        assert(ls.deep_view() =~= prepare_lines());
    }
    ls
}

/// Builds one action step without parameters.
fn build_action_step(name: &str, action: &str) -> (s: Step)
    ensures
        step_view(s) == (StepV {
            name: lit(name),
            uses: Some(lit(action)),
            with: Seq::empty(),
            run: Seq::empty(),
            shell: None,
        }),
{
    let s = Step {
        name: lit_bytes(name),
        uses: Some(lit_bytes(action)),
        with: Vec::new(),
        run: Vec::new(),
        shell: None,
    };
    proof {
        assert(step_view(s).with =~= Seq::<(Seq<u8>, Seq<u8>)>::empty());
        assert(step_view(s).run =~= Seq::<Seq<u8>>::empty());
    }
    s
}

/// Builds one single-line command step.
fn build_run_step(name: &str, cmd: &str) -> (s: Step)
    ensures
        step_view(s) == (StepV {
            name: lit(name),
            uses: None,
            with: Seq::empty(),
            run: seq![lit(cmd)],
            shell: None,
        }),
{
    let s = Step {
        name: lit_bytes(name),
        uses: None,
        with: Vec::new(),
        run: vec![lit_bytes(cmd)],
        shell: None,
    };
    proof {
        lemma_deep_bytes(&s.run);
        assert(step_view(s).with =~= Seq::<(Seq<u8>, Seq<u8>)>::empty());
        assert(step_view(s).run =~= seq![lit(cmd)]);
    }
    s
}

/// Builds the toolchain-installation step.
fn build_install_step() -> (s: Step)
    ensures
        step_view(s) == install_step(),
{
    let s = Step {
        name: lit_bytes("Install Rust"),
        uses: Some(lit_bytes("dtolnay/rust-toolchain@stable")),
        with: vec![(lit_bytes("targets"), lit_bytes("${{ matrix.target }}"))],
        run: Vec::new(),
        shell: None,
    };
    proof {
        assert(step_view(s).with =~= seq![(lit("targets"), lit("${{ matrix.target }}"))]);
        assert(step_view(s).run =~= Seq::<Seq<u8>>::empty());
    }
    s
}

/// Builds the release-binary preparation step.
fn build_prepare_step() -> (s: Step)
    ensures
        step_view(s) == prepare_step(),
{
    let s = Step {
        name: lit_bytes("Prepare Release Binary"),
        uses: None,
        with: Vec::new(),
        run: build_prepare_lines(),
        shell: Some(lit_bytes("bash")),
    };
    proof {
        assert(step_view(s).with =~= Seq::<(Seq<u8>, Seq<u8>)>::empty());
    }
    s
}

/// Builds the artifact-upload step.
fn build_upload_step(project: &Vec<u8>) -> (s: Step)
    ensures
        step_view(s) == upload_step(project@),
{
    let mut artifact_name = crate::bytestr::copy_range(project, 0, project.len());
    proof {
        assert(project@.subrange(0, project@.len() as int) =~= project@);
    }
    let suffix = lit_bytes("-${{ matrix.name }}-library");
    push_all(&mut artifact_name, suffix.as_slice());
    let s = Step {
        name: lit_bytes("Upload Artifact"),
        uses: Some(lit_bytes("actions/upload-artifact@v4")),
        with: vec![
            (lit_bytes("name"), artifact_name),
            (lit_bytes("path"), lit_bytes("dist/")),
            (lit_bytes("retention-days"), lit_bytes("30")),
        ],
        run: Vec::new(),
        shell: None,
    };
    proof {
        assert(step_view(s).with =~= seq![
            (lit("name"), project@ + lit("-${{ matrix.name }}-library")),
            (lit("path"), lit("dist/")),
            (lit("retention-days"), lit("30")),
        ]);
        assert(step_view(s).run =~= Seq::<Seq<u8>>::empty());
    }
    s
}

/// Builds the seven steps of the build job, in execution order.
#[verifier::rlimit(100)]
fn build_steps(project: &Vec<u8>) -> (ss: Vec<Step>)
    ensures
        Seq::new(ss@.len(), |i: int| step_view(ss@[i])) == steps_spec(project@),
{
    let checkout = build_action_step("Checkout", "actions/checkout@v4");
    proof {
        assert(step_view(checkout) == checkout_step());
    }
    let install = build_install_step();
    let cache = build_action_step("Setup Cache", "Swatinem/rust-cache@v2");
    proof {
        assert(step_view(cache) == cache_step());
    }
    let mkdir = build_run_step("Create Dist Directory", "mkdir -p dist");
    proof {
        assert(step_view(mkdir) == mkdir_step());
    }
    let build = build_run_step(
        "Build Library",
        "cargo build --verbose --locked --release --target ${{ matrix.target }}",
    );
    proof {
        assert(step_view(build) == buildlib_step());
    }
    let prepare = build_prepare_step();
    let upload = build_upload_step(project);
    let ss: Vec<Step> = vec![checkout, install, cache, mkdir, build, prepare, upload];
    proof {
        assert(ss@.len() == 7);
        assert(steps_spec(project@).len() == 7);
        assert(steps_spec(project@)[0] == checkout_step());
        assert(steps_spec(project@)[1] == install_step());
        assert(steps_spec(project@)[2] == cache_step());
        assert(steps_spec(project@)[3] == mkdir_step());
        assert(steps_spec(project@)[4] == buildlib_step());
        assert(steps_spec(project@)[5] == prepare_step());
        assert(steps_spec(project@)[6] == upload_step(project@));
        assert(Seq::new(ss@.len(), |i: int| step_view(ss@[i])) =~= steps_spec(project@));
    }
    ss
}

/// Builds the fixed workflow model for one project name, as
/// [`model_spec`] describes: the only parameter is the name, used as the
/// one environment value and inside the uploaded-artifact name.
#[verifier::rlimit(100)]
pub fn build_model(project: &Vec<u8>) -> (c: WorkflowConfig)
    ensures
        wf_view(c) == model_spec(project@),
{
    let env_value = crate::bytestr::copy_range(project, 0, project.len());
    proof {
        assert(project@.subrange(0, project@.len() as int) =~= project@);
    }
    let branches: Vec<Vec<u8>> = vec![lit_bytes("main")];
    let paths: Vec<Vec<u8>> = vec![
        lit_bytes("src/**"),
        lit_bytes("Cargo.toml"),
        lit_bytes(".github/workflows/build.yml"),
    ];
    let env: Vec<(Vec<u8>, Vec<u8>)> = vec![(lit_bytes("PROJECT_NAME"), env_value)];
    proof {
        lemma_deep_bytes(&branches);
        lemma_deep_bytes(&paths);
        assert(branches.deep_view() =~= seq!["main".spec_bytes()]);
        assert(paths.deep_view() =~= seq![
            "src/**".spec_bytes(),
            "Cargo.toml".spec_bytes(),
            ".github/workflows/build.yml".spec_bytes(),
        ]);
        assert(pairs_bview(env@) =~= seq![("PROJECT_NAME".spec_bytes(), project@)]);
    }
    let ghost branches_v = branches.deep_view();
    let ghost paths_v = paths.deep_view();
    let ghost env_v = pairs_bview(env@);
    let matrix = build_matrix();
    let steps = build_steps(project);
    let c = WorkflowConfig {
        name: lit_bytes("Build"),
        branches,
        paths,
        env,
        condition: skip_ci_cond_bytes(),
        runs_on: lit_bytes("${{ matrix.runner }}"),
        matrix,
        steps,
    };
    proof {
        let wv = wf_view(c);
        let ms = model_spec(project@);
        assert(wv.name == ms.name);
        assert(wv.branches == branches_v && ms.branches == seq!["main".spec_bytes()]);
        assert(wv.paths == paths_v);
        assert(wv.env == env_v);
        assert(wv.condition == ms.condition);
        assert(wv.runs_on == ms.runs_on);
        assert(wv.matrix == ms.matrix);
        assert(wv.steps == ms.steps);
        assert(wv == ms);
    }
    c
}

// ---------------------------------------------------------------------
// The post-serialization pass.
// ---------------------------------------------------------------------

/// Every occurrence of `pat` in `s`, scanned left to right, replaced by
/// `rep`.
pub open spec fn replace_all(s: Seq<u8>, pat: Seq<u8>, rep: Seq<u8>) -> Seq<u8>
    decreases s.len(),
    when pat.len() > 0
{
    if s.len() < pat.len() {
        s
    } else if s.take(pat.len() as int) == pat {
        rep + replace_all(s.skip(pat.len() as int), pat, rep)
    } else {
        seq![s[0]] + replace_all(s.skip(1), pat, rep)
    }
}

/// Whether `pat` stands in `s` at position `p`.
fn match_at(s: &Vec<u8>, p: usize, pat: &Vec<u8>) -> (r: bool)
    requires
        p <= s@.len(),
    ensures
        r == (s@.len() - p >= pat@.len() && s@.skip(p as int).take(pat@.len() as int) == pat@),
{
    let n = s.len();
    let m = pat.len();
    if n - p < m {
        return false;
    }
    let mut k: usize = 0;
    while k < m
        invariant
            0 <= k <= m,
            m == pat@.len(),
            p <= n == s@.len(),
            n - p >= m,
            forall|q: int| 0 <= q < k ==> s@[p + q] == pat@[q],
        decreases m - k,
    {
        if s[p + k] != pat[k] {
            assert(s@.skip(p as int).take(pat@.len() as int)[k as int] != pat@[k as int]);
            return false;
        }
        k = k + 1;
    }
    assert(s@.skip(p as int).take(pat@.len() as int) =~= pat@);
    true
}

/// Applies [`replace_all`] to bytes.
pub fn replace_all_bytes(s: &Vec<u8>, pat: &Vec<u8>, rep: &Vec<u8>) -> (r: Vec<u8>)
    requires
        pat@.len() > 0,
    ensures
        r@ == replace_all(s@, pat@, rep@),
{
    let n = s.len();
    let m = pat.len();
    let mut out: Vec<u8> = Vec::new();
    let mut p: usize = 0;
    proof {
        assert(s@.skip(0) =~= s@);
        assert(out@ + replace_all(s@.skip(0), pat@, rep@) =~= replace_all(s@, pat@, rep@));
    }
    while p < n
        invariant
            0 <= p <= n,
            n == s@.len(),
            m == pat@.len(),
            m > 0,
            replace_all(s@, pat@, rep@) == out@ + replace_all(s@.skip(p as int), pat@, rep@),
        decreases n - p,
    {
        if match_at(s, p, pat) {
            push_all(&mut out, rep.as_slice());
            proof {
                assert(s@.skip(p as int).skip(m as int) =~= s@.skip(p + m));
                assert(replace_all(s@.skip(p as int), pat@, rep@) == rep@ + replace_all(
                    s@.skip(p + m),
                    pat@,
                    rep@,
                ));
            }
            p = p + m;
        } else {
            out.push(s[p]);
            proof {
                assert(s@.skip(p as int).skip(1) =~= s@.skip(p + 1));
                if s@.len() - p >= m {
                    assert(replace_all(s@.skip(p as int), pat@, rep@) == seq![s@[p as int]]
                        + replace_all(s@.skip(p + 1), pat@, rep@));
                } else {
                    assert(replace_all(s@.skip(p as int), pat@, rep@) == s@.skip(p as int));
                    assert(replace_all(s@.skip(p + 1), pat@, rep@) == s@.skip(p + 1));
                }
            }
            p = p + 1;
        }
    }
    proof {
        assert(s@.skip(n as int).len() == 0);
        assert(replace_all(s@.skip(n as int), pat@, rep@) == s@.skip(n as int));
        assert(out@ =~= out@ + s@.skip(n as int));
    }
    out
}

/// The quoted `on` trigger key.
pub open spec fn quoted_on_key() -> Seq<u8> {
    seq![39u8, 111u8, 110u8, 39u8, 58u8]
}

/// The bare `on` trigger key.
pub open spec fn bare_on_key() -> Seq<u8> {
    seq![111u8, 110u8, 58u8]
}

/// A quote before an expression opener.
pub open spec fn quoted_expr_open() -> Seq<u8> {
    seq![39u8, 36u8, 123u8, 123u8]
}

/// The bare expression opener.
pub open spec fn bare_expr_open() -> Seq<u8> {
    seq![36u8, 123u8, 123u8]
}

/// A quote after an expression closer.
pub open spec fn quoted_expr_close() -> Seq<u8> {
    seq![125u8, 125u8, 39u8]
}

/// The bare expression closer.
pub open spec fn bare_expr_close() -> Seq<u8> {
    seq![125u8, 125u8]
}

/// The quoted retention-days value.
pub open spec fn quoted_retention() -> Seq<u8> {
    seq![39u8, 51u8, 48u8, 39u8]
}

/// The bare retention-days value.
pub open spec fn bare_retention() -> Seq<u8> {
    seq![51u8, 48u8]
}

/// The post-serialization pass: exactly four classes of token that the
/// renderer quoted are made bare again — the `on` trigger key, leading
/// expression openers, trailing expression closers, the quoted
/// skip-commit condition, and the retention-days number.  The
/// substitutions run in this order, once, after rendering.  They are
/// fixed and textual, over the whole rendered text: a project name that
/// itself renders as one of these tokens is substituted like any other
/// occurrence.
pub open spec fn post_spec(s: Seq<u8>) -> Seq<u8> {
    let s1 = replace_all(s, quoted_on_key(), bare_on_key());
    let s2 = replace_all(s1, quoted_expr_open(), bare_expr_open());
    let s3 = replace_all(s2, quoted_expr_close(), bare_expr_close());
    let s4 = replace_all(s3, seq![39u8] + dq(skip_ci_cond()) + seq![39u8], skip_ci_cond());
    let s5 = replace_all(s4, quoted_retention(), bare_retention());
    s5
}

/// Applies the post-serialization pass.
pub fn postprocess(s: &Vec<u8>) -> (r: Vec<u8>)
    ensures
        r@ == post_spec(s@),
{
    let p1: Vec<u8> = vec![39, 111, 110, 39, 58];
    let r1: Vec<u8> = vec![111, 110, 58];
    assert(p1@ =~= quoted_on_key());
    assert(r1@ =~= bare_on_key());
    let s1 = replace_all_bytes(s, &p1, &r1);
    let p2: Vec<u8> = vec![39, 36, 123, 123];
    let r2: Vec<u8> = vec![36, 123, 123];
    assert(p2@ =~= quoted_expr_open());
    assert(r2@ =~= bare_expr_open());
    let s2 = replace_all_bytes(&s1, &p2, &r2);
    let p3: Vec<u8> = vec![125, 125, 39];
    let r3: Vec<u8> = vec![125, 125];
    assert(p3@ =~= quoted_expr_close());
    assert(r3@ =~= bare_expr_close());
    let s3 = replace_all_bytes(&s2, &p3, &r3);
    let cond = skip_ci_cond_bytes();
    let body = dq_exec(&cond);
    let mut p4: Vec<u8> = Vec::new();
    p4.push(39);
    push_all(&mut p4, body.as_slice());
    p4.push(39);
    assert(p4@ =~= seq![39u8] + dq(skip_ci_cond()) + seq![39u8]);
    let s4 = replace_all_bytes(&s3, &p4, &cond);
    let p5: Vec<u8> = vec![39, 51, 48, 39];
    let r5: Vec<u8> = vec![51, 48];
    assert(p5@ =~= quoted_retention());
    assert(r5@ =~= bare_retention());
    let s5 = replace_all_bytes(&s4, &p5, &r5);
    s5
}

/// The workflow text for one project name: the rendered fixed model,
/// after the post-serialization pass.
pub open spec fn workflow_text_spec(project: Seq<u8>) -> Seq<u8> {
    post_spec(render_spec(model_spec(project)))
}

/// Builds the model for the project name, renders it, and applies the
/// post-serialization pass: the whole workflow text, a function of the
/// project name alone.
pub fn build_workflow_text(project: &Vec<u8>) -> (r: Vec<u8>)
    ensures
        r@ == workflow_text_spec(project@),
{
    let model = build_model(project);
    let rendered = serialize(&model);
    postprocess(&rendered)
}

/// Determinism of the generator: the workflow text depends on the
/// project name alone — together with the contract of
/// [`build_workflow_text`], any two generations for the same name are
/// byte-identical — and the platform matrix of every model stands in its
/// fixed order.
pub proof fn lemma_workflow_deterministic(p1: Seq<u8>, p2: Seq<u8>)
    requires
        p1 == p2,
    ensures
        workflow_text_spec(p1) == workflow_text_spec(p2),
        model_spec(p1).matrix == matrix_spec(),
{
}

} // verus!
