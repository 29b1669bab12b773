//! What holds of the library as a whole, across its functions.

use vstd::prelude::*;

use crate::detect::{
    enumerated, insert_by_card, insert_position, listed_gpus, sort_by_card, GpuView,
};
use crate::detect::{
    any_primary, backend_choice, decision_for, driver_label, first_backend, first_nvidia,
    is_nvidia_gpu, reads, session_of, target_gpu, text_of, vendor_label, DecisionView, Env,
};
use crate::lifecycle::{
    applied_status, planned_status, recorded_status, run_steps, GlAttempt, Matched, Step,
};
use crate::status::{Error, NotAffectedReason, SessionType, StatusView};
use crate::detect::{entry_gpu, is_card_name, vendor_reading, DrmEntry, NVIDIA_VENDOR};
use crate::text::{has_prefix, parse_hex_u32, path_file_name};
use crate::text::{
    all_hex_digits, hex_char, hex_digit_value, hex_label, hex_value, is_white_space, lower_hex,
    strip_hex_prefixes, trim, trim_end, trim_start, unsigned_digits,
};
use crate::text::{
    lemma_split_on_nonempty, split_on, lemma_text_lt_irreflexive, lemma_text_lt_total, lemma_text_lt_transitive, text_lt,
};

verus! {

/// No GPU in `s` has a card name that comes before that of a GPU ahead of it.
pub open spec fn ordered_by_card(s: Seq<GpuView>) -> bool {
    forall|i: int, j: int| 0 <= i < j < s.len() ==> !text_lt(#[trigger] s[j].card, #[trigger] s[i].card)
}

/// The test for one card name.
pub open spec fn card_is(k: Seq<char>) -> spec_fn(GpuView) -> bool {
    |g: GpuView| g.card == k
}

proof fn lemma_filter_none(s: Seq<GpuView>, k: Seq<char>)
    requires
        forall|i: int| 0 <= i < s.len() ==> (#[trigger] s[i]).card != k,
    ensures
        s.filter(card_is(k)) == Seq::<GpuView>::empty(),
    decreases s.len(),
{
    reveal(Seq::filter);
    if s.len() > 0 {
        lemma_filter_none(s.drop_last(), k);
        assert(s.last() == s[s.len() - 1]);
    }
}

proof fn lemma_insert_position(t: Seq<GpuView>, x: GpuView)
    ensures
        insert_position(t, x) <= t.len(),
        forall|i: int| 0 <= i < insert_position(t, x) ==> !text_lt(x.card, (#[trigger] t[i]).card),
        insert_position(t, x) < t.len() ==> text_lt(x.card, t[insert_position(t, x) as int].card),
    decreases t.len(),
{
    if t.len() > 0 && !text_lt(x.card, t[0].card) {
        let u = t.drop_first();
        lemma_insert_position(u, x);
        assert forall|i: int| 0 <= i < insert_position(t, x) implies !text_lt(
            x.card,
            (#[trigger] t[i]).card,
        ) by {
            if i > 0 {
                assert(t[i] == u[i - 1]);
            }
        }
        if insert_position(t, x) < t.len() {
            assert(t[insert_position(t, x) as int] == u[insert_position(u, x) as int]);
        }
    }
}

proof fn lemma_insert_by_card(t: Seq<GpuView>, x: GpuView)
    requires
        ordered_by_card(t),
    ensures
        ordered_by_card(insert_by_card(t, x)),
        forall|k: Seq<char>| #[trigger] insert_by_card(t, x).filter(card_is(k)) == t.push(x).filter(card_is(k)),
{
    let p = insert_position(t, x) as int;
    lemma_insert_position(t, x);
    let r = insert_by_card(t, x);
    assert(r == t.take(p) + seq![x] + t.skip(p));
    // everything from position p on comes strictly after x
    assert forall|j: int| p <= j < t.len() implies text_lt(x.card, (#[trigger] t[j]).card) by {
        if j > p {
            lemma_text_lt_total(t[p].card, t[j].card);
            if text_lt(t[p].card, t[j].card) {
                lemma_text_lt_transitive(x.card, t[p].card, t[j].card);
            }
        }
    }
    assert forall|i: int, j: int| 0 <= i < j < r.len() implies !text_lt(
        #[trigger] r[j].card,
        #[trigger] r[i].card,
    ) by {
        if j < p {
            assert(r[i] == t[i] && r[j] == t[j]);
        } else if j == p {
            assert(r[i] == t[i] && r[j] == x);
        } else if i < p {
            assert(r[i] == t[i] && r[j] == t[j - 1]);
        } else if i == p {
            assert(r[i] == x && r[j] == t[j - 1]);
            if text_lt(t[j - 1].card, x.card) {
                lemma_text_lt_transitive(x.card, t[j - 1].card, x.card);
                lemma_text_lt_irreflexive(x.card);
            }
        } else {
            assert(r[i] == t[i - 1] && r[j] == t[j - 1]);
        }
    }
    assert forall|k: Seq<char>| #[trigger] r.filter(card_is(k)) == t.push(x).filter(card_is(k)) by {
        let f = card_is(k);
        Seq::filter_distributes_over_add(t.take(p) + seq![x], t.skip(p), f);
        Seq::filter_distributes_over_add(t.take(p), seq![x], f);
        Seq::filter_distributes_over_add(t.take(p), t.skip(p), f);
        assert(t.take(p) + t.skip(p) == t);
        t.lemma_filter_push(x, f);
        assert(seq![x] == Seq::<GpuView>::empty().push(x));
        Seq::<GpuView>::empty().lemma_filter_push(x, f);
        reveal(Seq::filter);
        assert(Seq::<GpuView>::empty().filter(f) == Seq::<GpuView>::empty());
        if x.card == k {
            assert forall|i: int| 0 <= i < t.skip(p).len() implies (#[trigger] t.skip(p)[i]).card != k by {
                assert(t.skip(p)[i] == t[p + i]);
                lemma_text_lt_irreflexive(x.card);
            }
            lemma_filter_none(t.skip(p), k);
        }
    }
}

proof fn lemma_sort_by_card(s: Seq<GpuView>)
    ensures
        ordered_by_card(sort_by_card(s)),
        forall|k: Seq<char>| #[trigger] sort_by_card(s).filter(card_is(k)) == s.filter(card_is(k)),
    decreases s.len(),
{
    if s.len() > 0 {
        let front = s.drop_last();
        lemma_sort_by_card(front);
        let t = sort_by_card(front);
        lemma_insert_by_card(t, s.last());
        assert forall|k: Seq<char>| #[trigger] sort_by_card(s).filter(card_is(k)) == s.filter(
            card_is(k),
        ) by {
            t.lemma_filter_push(s.last(), card_is(k));
            front.lemma_filter_push(s.last(), card_is(k));
            assert(front.push(s.last()) == s);
            assert(insert_by_card(t, s.last()).filter(card_is(k)) == t.push(s.last()).filter(
                card_is(k),
            ));
        }
    }
}

/// The GPUs of a directory come out ordered by card name, and GPUs that
/// share a card name keep the order in which the directory listed them:
/// the enumeration is the stable sort of the listed cards.
pub proof fn law_gpus_ordered_by_card(entries: Seq<crate::detect::DrmEntry>)
    ensures
        ordered_by_card(enumerated(entries)),
        forall|k: Seq<char>| #[trigger] enumerated(entries).filter(card_is(k)) == listed_gpus(entries).filter(
            card_is(k),
        ),
{
    lemma_sort_by_card(listed_gpus(entries));
}


proof fn lemma_split_on_join(a: Seq<char>, b: Seq<char>, sep: char)
    ensures
        split_on(a + seq![sep] + b, sep) == split_on(a, sep) + split_on(b, sep),
    decreases b.len(),
{
    let whole = a + seq![sep] + b;
    if b.len() == 0 {
        assert(whole.drop_last() == a);
        assert(whole.last() == sep);
        assert(split_on(b, sep) == seq![Seq::<char>::empty()]);
    } else {
        let c = b.last();
        let front = b.drop_last();
        assert(whole.drop_last() == a + seq![sep] + front);
        assert(whole.last() == c);
        lemma_split_on_join(a, front, sep);
        lemma_split_on_nonempty(front, sep);
        lemma_split_on_nonempty(a, sep);
        let left = split_on(a, sep);
        let right = split_on(front, sep);
        if c == sep {
            assert((left + right).push(Seq::<char>::empty()) == left + right.push(Seq::<char>::empty()));
        } else {
            let joined = left + right;
            assert(joined.last() == right.last());
            assert(joined.update(joined.len() - 1, joined.last().push(c)) == left + right.update(
                right.len() - 1,
                right.last().push(c),
            ));
        }
    }
}

proof fn lemma_first_backend_join(x: Seq<Seq<char>>, y: Seq<Seq<char>>)
    ensures
        first_backend(x + y) == match first_backend(x) {
            Some(b) => Some(b),
            None => first_backend(y),
        },
    decreases x.len(),
{
    if x.len() == 0 {
        assert(x + y == y);
    } else {
        assert((x + y)[0] == x[0]);
        assert((x + y).drop_first() == x.drop_first() + y);
        lemma_first_backend_join(x.drop_first(), y);
    }
}

/// `GDK_BACKEND` is read left to right: in `a,b`, the first of `a`'s
/// entries that names a backend wins, and only if there is none does `b`
/// count. So `wayland,x11` is Wayland, `x11,wayland` is X11, and an entry
/// that names no backend (`broadway`) is skipped, not fatal.
pub proof fn law_gdk_backend_first_entry_wins(a: Seq<char>, b: Seq<char>)
    ensures
        backend_choice(Some(a + seq![','] + b)) == match backend_choice(Some(a)) {
            Some(s) => Some(s),
            None => backend_choice(Some(b)),
        },
{
    lemma_split_on_join(a, b, ',');
    lemma_first_backend_join(split_on(a, ','), split_on(b, ','));
}


/// `GDK_BACKEND` outranks everything else: when it names a backend, that is
/// the session, whatever `XDG_SESSION_TYPE` and the sockets say.
pub proof fn law_gdk_backend_outranks_session_type(env: Env)
    ensures
        backend_choice(text_of(env.gdk_backend)) matches Some(s) ==> session_of(env) == s,
{
}

proof fn lemma_first_nvidia(s: Seq<GpuView>, primary_only: bool)
    ensures
        first_nvidia(s, primary_only) matches Some(g) ==> s.contains(g) && is_nvidia_gpu(g) && (
        g.primary || !primary_only),
        first_nvidia(s, primary_only) is None ==> forall|i: int|
            0 <= i < s.len() ==> !(is_nvidia_gpu(#[trigger] s[i]) && (s[i].primary
                || !primary_only)),
    decreases s.len(),
{
    if s.len() > 0 {
        let rest = s.drop_first();
        lemma_first_nvidia(rest, primary_only);
        if first_nvidia(s, primary_only) is Some {
            let g = first_nvidia(s, primary_only)->0;
            if !(is_nvidia_gpu(s[0]) && (s[0].primary || !primary_only)) {
                let j = choose|j: int| 0 <= j < rest.len() && rest[j] == g;
                assert(s[j + 1] == g);
            } else {
                assert(s[0] == g);
            }
        } else {
            assert forall|i: int| 0 <= i < s.len() implies !(is_nvidia_gpu(#[trigger] s[i]) && (
            s[i].primary || !primary_only)) by {
                if i > 0 {
                    assert(s[i] == rest[i - 1]);
                }
            }
        }
    }
}

/// The GPU that decides is an NVIDIA GPU of the list, and one that drives
/// the session, unless PRIME offload is on or no GPU is marked as driving
/// it; when there is none, no GPU of the list qualifies. So a hybrid laptop
/// whose integrated GPU drives the session is left alone.
pub proof fn law_target_gpu_qualifies(gpus: Seq<GpuView>, prime_offload: bool)
    ensures
        target_gpu(gpus, prime_offload) matches Some(g) ==> gpus.contains(g) && is_nvidia_gpu(g)
            && (prime_offload || !any_primary(gpus) || g.primary),
        target_gpu(gpus, prime_offload) is None ==> forall|i: int|
            0 <= i < gpus.len() ==> !(is_nvidia_gpu(#[trigger] gpus[i]) && (prime_offload
                || !any_primary(gpus) || gpus[i].primary)),
{
    lemma_first_nvidia(gpus, false);
    lemma_first_nvidia(gpus, true);
}

/// `TAURI_WAYLAND_NVIDIA_QUIRK=0` never applies, whatever the hardware and
/// the rest of the environment.
pub proof fn law_quirk_can_be_switched_off(env: Env, gpus: Seq<GpuView>)
    requires
        reads(env.force, "0"@),
    ensures
        decision_for(env, gpus) == DecisionView::Overridden("TAURI_WAYLAND_NVIDIA_QUIRK=0"@),
{
}

/// `TAURI_WAYLAND_NVIDIA_QUIRK=1` always applies, skipping detection: even
/// with no NVIDIA GPU, with `WEBKIT_DISABLE_DMABUF_RENDERER=1`, or outside
/// Wayland. It reports the session it found.
pub proof fn law_quirk_can_be_forced_on(env: Env, gpus: Seq<GpuView>)
    requires
        reads(env.force, "1"@),
    ensures
        decision_for(env, gpus) matches DecisionView::Apply { session, .. } && session
            == session_of(env),
{
    assert("0"@ != "1"@) by {
        reveal_strlit("0");
        reveal_strlit("1");
        assert("0"@[0] != "1"@[0]);
    }
}

/// Unless the quirk is forced either way, `WEBKIT_DISABLE_DMABUF_RENDERER=1`
/// makes it stand down.
pub proof fn law_dmabuf_override_stands_down(env: Env, gpus: Seq<GpuView>)
    requires
        !reads(env.force, "0"@),
        !reads(env.force, "1"@),
        reads(env.webkit_disable_dmabuf, "1"@),
    ensures
        decision_for(env, gpus) == DecisionView::Overridden("WEBKIT_DISABLE_DMABUF_RENDERER=1"@),
{
}

/// Unless forced or overridden, a session that is not Wayland is not
/// affected.
pub proof fn law_only_wayland_is_affected(env: Env, gpus: Seq<GpuView>)
    requires
        !reads(env.force, "0"@),
        !reads(env.force, "1"@),
        !reads(env.webkit_disable_dmabuf, "1"@),
        session_of(env) != SessionType::Wayland,
    ensures
        decision_for(env, gpus) == DecisionView::NotAffected(NotAffectedReason::NotWayland),
{
}

/// Unless forced, the quirk applies only on Wayland with an NVIDIA GPU that
/// matters, and it names that GPU's vendor and driver.
pub proof fn law_detected_apply_needs_nvidia_on_wayland(env: Env, gpus: Seq<GpuView>)
    requires
        !reads(env.force, "1"@),
        decision_for(env, gpus) is Apply,
    ensures
        session_of(env) == SessionType::Wayland,
        target_gpu(gpus, env.prime_offload is Some) matches Some(g) && gpus.contains(g)
            && is_nvidia_gpu(g) && decision_for(env, gpus) == (DecisionView::Apply {
            gpu: vendor_label(Some(g)),
            driver: driver_label(Some(g)),
            session: SessionType::Wayland,
        }),
{
    law_target_gpu_qualifies(gpus, env.prime_offload is Some);
}

/// Forcing the quirk on where detection already applies it changes nothing:
/// the same GPU, driver and session are reported.
pub proof fn law_forcing_a_match_changes_nothing(env: Env, forced: Env, gpus: Seq<GpuView>)
    requires
        decision_for(env, gpus) is Apply,
        reads(forced.force, "1"@),
        forced.gdk_backend == env.gdk_backend,
        forced.xdg_session_type == env.xdg_session_type,
        forced.wayland_display == env.wayland_display,
        forced.wayland_socket == env.wayland_socket,
        forced.display == env.display,
        forced.webkit_disable_dmabuf == env.webkit_disable_dmabuf,
        forced.prime_offload == env.prime_offload,
    ensures
        decision_for(forced, gpus) == decision_for(env, gpus),
{
    assert("0"@ != "1"@) by {
        reveal_strlit("0");
        reveal_strlit("1");
        assert("0"@[0] != "1"@[0]);
    }
    assert(session_of(forced) == session_of(env));
}


/// Consulting the decision again changes nothing: `apply` is safe to call
/// more than once, and after the setup hook.
pub proof fn law_planning_is_idempotent(d: DecisionView, s: StatusView)
    ensures
        planned_status(d, planned_status(d, s)) == planned_status(d, s),
{
}

/// On a system where the quirk stands down, the status says why and never
/// that the workaround is in effect.
pub proof fn law_standing_down_is_never_applied(d: DecisionView, s: StatusView)
    requires
        !(d is Apply),
    ensures
        !(planned_status(d, s) is Applied),
        d matches DecisionView::Overridden(by) ==> planned_status(d, s) == (StatusView::Overridden {
            by,
        }),
        d matches DecisionView::NotAffected(reason) ==> planned_status(d, s)
            == (StatusView::NotAffected { reason }),
{
}

/// Arming a window reports exactly what the detection matched when GDK
/// hands over the GL context, and GDK's complaint otherwise.
pub proof fn law_arming_reports_the_match(result: Result<(), Error>, m: Matched)
    ensures
        result is Ok ==> recorded_status(result, m) == applied_status(m) && recorded_status(
            result,
            m,
        ) is Applied,
        result matches Err(e) ==> recorded_status(result, m) == (StatusView::Failed {
            error: e.describe(),
        }),
{
}


proof fn lemma_hex_char(d: nat)
    requires
        d < 16,
    ensures
        hex_digit_value(hex_char(d)) == Some(d),
        !is_white_space(hex_char(d)),
        hex_char(d) != 'x',
        hex_char(d) != '+',
{
    assert(d == 0 || d == 1 || d == 2 || d == 3 || d == 4 || d == 5 || d == 6 || d == 7 || d == 8
        || d == 9 || d == 10 || d == 11 || d == 12 || d == 13 || d == 14 || d == 15);
}

proof fn lemma_lower_hex(v: nat)
    ensures
        lower_hex(v).len() >= 1,
        all_hex_digits(lower_hex(v)),
        hex_value(lower_hex(v)) == v,
        forall|i: int| 0 <= i < lower_hex(v).len() ==> !is_white_space(#[trigger] lower_hex(v)[i])
            && lower_hex(v)[i] != 'x',
    decreases v,
{
    if v < 16 {
        lemma_hex_char(v);
        assert(lower_hex(v).drop_last() == Seq::<char>::empty());
        assert(hex_value(Seq::<char>::empty()) == 0);
        assert(lower_hex(v).last() == hex_char(v));
    } else {
        let front = lower_hex(v / 16);
        lemma_lower_hex(v / 16);
        lemma_hex_char(v % 16);
        let s = lower_hex(v);
        assert(s == front.push(hex_char(v % 16)));
        assert(s.drop_last() == front);
        assert(s.last() == hex_char(v % 16));
        assert(v == 16 * (v / 16) + v % 16);
        assert forall|i: int| 0 <= i < s.len() implies (#[trigger] hex_digit_value(s[i])) is Some
            && !is_white_space(s[i]) && s[i] != 'x' by {
            if i < front.len() {
                assert(s[i] == front[i]);
            }
        }
    }
}

proof fn lemma_hex_value_leading_zeros(z: Seq<char>, d: Seq<char>)
    requires
        forall|i: int| 0 <= i < z.len() ==> z[i] == '0',
    ensures
        hex_value(z + d) == hex_value(d),
    decreases z.len() + d.len(),
{
    if d.len() == 0 {
        assert(z + d == z);
        if z.len() > 0 {
            lemma_hex_value_leading_zeros(z.drop_last(), d);
            assert(z.drop_last() + d == z.drop_last());
        }
    } else {
        assert((z + d).drop_last() == z + d.drop_last());
        assert((z + d).last() == d.last());
        lemma_hex_value_leading_zeros(z, d.drop_last());
    }
}

/// The vendor id that a decision reports, such as `0x10de`, is in the form
/// of the `vendor` files it was read from, and reads back as the same id.
pub proof fn law_vendor_label_reads_back(v: u32)
    ensures
        vendor_reading(Some(hex_label(v))) == Some(v),
{
    let digits = lower_hex(v as nat);
    lemma_lower_hex(v as nat);
    let pad: nat = if digits.len() < 4 {
        (4 - digits.len()) as nat
    } else {
        0
    };
    let zeros = Seq::new(pad, |i: int| '0');
    let body = zeros + digits;
    let label = hex_label(v);
    assert(label == seq!['0', 'x'] + body);
    // no white space to trim
    assert(trim_start(label) == label);
    assert(label.last() == digits.last());
    assert(!is_white_space(digits[digits.len() - 1]));
    assert(trim_end(label) == label);
    assert(trim(label) == label);
    // one `0x` to strip
    assert(label.skip(2) == body);
    assert(body.len() >= 4);
    assert(body[1] != 'x') by {
        if pad >= 2 {
            assert(body[1] == '0');
        } else if pad == 1 {
            assert(body[1] == digits[0]);
        } else {
            assert(body[1] == digits[1]);
        }
    }
    assert(strip_hex_prefixes(body) == body);
    assert(strip_hex_prefixes(label) == body);
    // the digits spell `v`
    assert(body[0] != '+') by {
        if pad == 0 {
            assert(body[0] == digits[0]);
            assert(hex_digit_value(digits[0]) is Some);
            assert(hex_digit_value('+') is None);
        } else {
            assert(body[0] == '0');
        }
    }
    assert(unsigned_digits(body) == body);
    assert(all_hex_digits(body)) by {
        assert forall|i: int| 0 <= i < body.len() implies (#[trigger] hex_digit_value(body[i])) is Some by {
            if i >= pad {
                assert(body[i] == digits[i - pad]);
            }
        }
    }
    lemma_hex_value_leading_zeros(zeros, digits);
}


/// The decision never says the system is not Linux: that reason is only
/// ever given off Linux, where nothing is decided.
pub proof fn law_decision_is_never_not_linux(env: Env, gpus: Seq<GpuView>)
    ensures
        decision_for(env, gpus) != DecisionView::NotAffected(NotAffectedReason::NotLinux),
{
}

proof fn lemma_run_steps(d: DecisionView, s: StatusView, steps: Seq<Step>)
    requires
        !(s is Applied),
    ensures
        run_steps(d, s, steps) matches StatusView::Applied { gpu, driver, session } ==> d == (
        DecisionView::Apply { gpu, driver, session }) && exists|i: int|
            0 <= i < steps.len() && #[trigger] steps[i] matches Step::Armed(GlAttempt::Created),
        s != (StatusView::NotAffected { reason: NotAffectedReason::NotLinux }) && d
            != DecisionView::NotAffected(NotAffectedReason::NotLinux) ==> run_steps(d, s, steps)
            != (StatusView::NotAffected { reason: NotAffectedReason::NotLinux }),
    decreases steps.len(),
{
    if steps.len() > 0 {
        let front = steps.drop_last();
        lemma_run_steps(d, s, front);
        if run_steps(d, s, steps) is Applied {
            if steps.last() matches Step::Armed(GlAttempt::Created) {
                assert(steps[steps.len() - 1] == steps.last());
            } else {
                let i = choose|i: int|
                    0 <= i < front.len() && #[trigger] front[i] matches Step::Armed(
                        GlAttempt::Created,
                    );
                assert(steps[i] == front[i]);
            }
        }
    }
}

/// On Linux, the status says the workaround is in effect only with what a
/// decision to apply matched, and only once GDK created a GL context for a
/// window; and it never says the system is not Linux. This holds after any
/// sequence of steps from `NotRun`, whatever the decision, and so of the
/// decision that the environment and the GPUs give.
pub proof fn law_status_follows_the_steps(env: Env, gpus: Seq<GpuView>, steps: Seq<Step>)
    ensures
        run_steps(decision_for(env, gpus), StatusView::NotRun, steps) matches StatusView::Applied {
            gpu,
            driver,
            session,
        } ==> decision_for(env, gpus) == (DecisionView::Apply { gpu, driver, session })
            && exists|i: int|
            0 <= i < steps.len() && #[trigger] steps[i] matches Step::Armed(GlAttempt::Created),
        run_steps(decision_for(env, gpus), StatusView::NotRun, steps) != (StatusView::NotAffected {
            reason: NotAffectedReason::NotLinux,
        }),
{
    lemma_run_steps(decision_for(env, gpus), StatusView::NotRun, steps);
}


/// Every GPU in `s` has a card name that comes strictly before those of the
/// GPUs after it.
pub open spec fn strictly_ordered_by_card(s: Seq<GpuView>) -> bool {
    forall|i: int, j: int| 0 <= i < j < s.len() ==> text_lt(#[trigger] s[i].card, #[trigger] s[j].card)
}

/// Whether some GPU in `s` has card name `k`.
pub open spec fn has_card(s: Seq<GpuView>, k: Seq<char>) -> bool {
    exists|i: int| 0 <= i < s.len() && (#[trigger] s[i]).card == k
}

/// Whether no two entries have the same name, as in a directory.
pub open spec fn distinct_names(entries: Seq<DrmEntry>) -> bool {
    forall|i: int, j: int|
        0 <= i < j < entries.len() && (#[trigger] entries[i]).name is Some && (
        #[trigger] entries[j]).name is Some ==> entries[i].name->0@ != entries[j].name->0@
}

/// Whether some entry is a card named `k`.
pub open spec fn names_card(entries: Seq<DrmEntry>, k: Seq<char>) -> bool {
    exists|j: int| 0 <= j < entries.len() && text_of((#[trigger] entries[j]).name) == Some(k) && is_card_name(k)
}

proof fn lemma_listed_cards(entries: Seq<DrmEntry>)
    ensures
        forall|k: Seq<char>| has_card(listed_gpus(entries), k) <==> #[trigger] names_card(entries, k),
        distinct_names(entries) ==> forall|i: int, j: int|
            0 <= i < j < listed_gpus(entries).len() ==> (#[trigger] listed_gpus(entries)[i]).card
                != (#[trigger] listed_gpus(entries)[j]).card,
    decreases entries.len(),
{
    if entries.len() > 0 {
        let front = entries.drop_last();
        let e = entries.last();
        lemma_listed_cards(front);
        let lf = listed_gpus(front);
        let l = listed_gpus(entries);
        assert(e == entries[entries.len() - 1]);
        assert forall|k: Seq<char>| names_card(entries, k) <==> (names_card(front, k) || (text_of(
            e.name,
        ) == Some(k) && is_card_name(k))) by {
            if names_card(front, k) {
                let j = choose|j: int|
                    0 <= j < front.len() && text_of((#[trigger] front[j]).name) == Some(k)
                        && is_card_name(k);
                assert(entries[j] == front[j]);
            }
            if names_card(entries, k) && !(text_of(e.name) == Some(k) && is_card_name(k)) {
                let j = choose|j: int|
                    0 <= j < entries.len() && text_of((#[trigger] entries[j]).name) == Some(k)
                        && is_card_name(k);
                assert(j < front.len());
                assert(entries[j] == front[j]);
            }
        }
        if distinct_names(entries) {
            assert(distinct_names(front)) by {
                assert forall|i: int, j: int|
                    0 <= i < j < front.len() && (#[trigger] front[i]).name is Some && (
                    #[trigger] front[j]).name is Some implies front[i].name->0@
                    != front[j].name->0@ by {
                    assert(front[i] == entries[i] && front[j] == entries[j]);
                }
            }
        }
        match entry_gpu(e) {
            Some(g) => {
                assert(l == lf.push(g));
                assert forall|k: Seq<char>| has_card(l, k) <==> (has_card(lf, k) || g.card == k) by {
                    if has_card(lf, k) {
                        let i = choose|i: int| 0 <= i < lf.len() && (#[trigger] lf[i]).card == k;
                        assert(l[i] == lf[i]);
                    }
                    if g.card == k {
                        assert(l[lf.len() as int] == g);
                    }
                    if has_card(l, k) && g.card != k {
                        let i = choose|i: int| 0 <= i < l.len() && (#[trigger] l[i]).card == k;
                        assert(l[i] == lf[i]);
                    }
                }
                if distinct_names(entries) {
                    assert forall|i: int, j: int| 0 <= i < j < l.len() implies (
                    #[trigger] l[i]).card != (#[trigger] l[j]).card by {
                        assert(l[i] == lf[i]);
                        if j == lf.len() {
                            if l[i].card == g.card {
                                assert(has_card(lf, g.card));
                                assert(names_card(front, g.card));
                                let m = choose|m: int|
                                    0 <= m < front.len() && text_of((#[trigger] front[m]).name)
                                        == Some(g.card) && is_card_name(g.card);
                                assert(entries[m] == front[m]);
                                assert(entries[m].name is Some && e.name is Some);
                            }
                        } else {
                            assert(l[j] == lf[j]);
                        }
                    }
                }
            },
            None => {
                assert(l == lf);
            },
        }
        assert forall|k: Seq<char>| has_card(l, k) <==> #[trigger] names_card(entries, k) by {
            assert(names_card(front, k) <==> has_card(lf, k));
            match entry_gpu(e) {
                Some(g) => {
                    assert(has_card(l, k) <==> (has_card(lf, k) || g.card == k));
                    assert(text_of(e.name) == Some(g.card) && is_card_name(g.card));
                },
                None => {
                    assert(!(text_of(e.name) == Some(k) && is_card_name(k)));
                },
            }
        }
    }
}

proof fn lemma_insert_strict(t: Seq<GpuView>, x: GpuView)
    requires
        strictly_ordered_by_card(t),
        !has_card(t, x.card),
    ensures
        strictly_ordered_by_card(insert_by_card(t, x)),
        forall|k: Seq<char>| #[trigger] has_card(insert_by_card(t, x), k) <==> (has_card(t, k) || x.card == k),
{
    let p = insert_position(t, x) as int;
    lemma_insert_position(t, x);
    let r = insert_by_card(t, x);
    assert(r == t.take(p) + seq![x] + t.skip(p));
    assert(r.len() == t.len() + 1);
    assert forall|i: int| 0 <= i < p implies text_lt((#[trigger] t[i]).card, x.card) by {
        lemma_text_lt_total(t[i].card, x.card);
        if t[i].card == x.card {
            assert(has_card(t, x.card));
        }
    }
    assert forall|j: int| p <= j < t.len() implies text_lt(x.card, (#[trigger] t[j]).card) by {
        if j > p {
            lemma_text_lt_transitive(x.card, t[p].card, t[j].card);
        }
    }
    assert forall|i: int, j: int| 0 <= i < j < r.len() implies text_lt(
        #[trigger] r[i].card,
        #[trigger] r[j].card,
    ) by {
        if j < p {
            assert(r[i] == t[i] && r[j] == t[j]);
        } else if j == p {
            assert(r[i] == t[i] && r[j] == x);
        } else if i < p {
            assert(r[i] == t[i] && r[j] == t[j - 1]);
        } else if i == p {
            assert(r[i] == x && r[j] == t[j - 1]);
        } else {
            assert(r[i] == t[i - 1] && r[j] == t[j - 1]);
        }
    }
    assert forall|k: Seq<char>| #[trigger] has_card(r, k) <==> (has_card(t, k) || x.card == k) by {
        if has_card(t, k) {
            let i = choose|i: int| 0 <= i < t.len() && (#[trigger] t[i]).card == k;
            if i < p {
                assert(r[i] == t[i]);
            } else {
                assert(r[i + 1] == t[i]);
            }
        }
        if x.card == k {
            assert(r[p] == x);
        }
        if has_card(r, k) {
            let i = choose|i: int| 0 <= i < r.len() && (#[trigger] r[i]).card == k;
            if i < p {
                assert(r[i] == t[i]);
            } else if i > p {
                assert(r[i] == t[i - 1]);
            }
        }
    }
}

proof fn lemma_sort_strict(s: Seq<GpuView>)
    requires
        forall|i: int, j: int| 0 <= i < j < s.len() ==> (#[trigger] s[i]).card != (#[trigger] s[j]).card,
    ensures
        strictly_ordered_by_card(sort_by_card(s)),
        forall|k: Seq<char>| #[trigger] has_card(sort_by_card(s), k) <==> has_card(s, k),
    decreases s.len(),
{
    if s.len() > 0 {
        let front = s.drop_last();
        let x = s.last();
        assert(x == s[s.len() - 1]);
        assert forall|i: int, j: int| 0 <= i < j < front.len() implies (#[trigger] front[i]).card
            != (#[trigger] front[j]).card by {
            assert(front[i] == s[i] && front[j] == s[j]);
        }
        lemma_sort_strict(front);
        let t = sort_by_card(front);
        if has_card(t, x.card) {
            assert(has_card(front, x.card));
            let i = choose|i: int| 0 <= i < front.len() && (#[trigger] front[i]).card == x.card;
            assert(s[i] == front[i]);
        }
        lemma_insert_strict(t, x);
        assert forall|k: Seq<char>| #[trigger] has_card(sort_by_card(s), k) <==> has_card(s, k) by {
            assert(has_card(sort_by_card(s), k) <==> (has_card(t, k) || x.card == k));
            if has_card(front, k) {
                let i = choose|i: int| 0 <= i < front.len() && (#[trigger] front[i]).card == k;
                assert(s[i] == front[i]);
            }
            if has_card(s, k) && x.card != k {
                let i = choose|i: int| 0 <= i < s.len() && (#[trigger] s[i]).card == k;
                assert(i < front.len());
                assert(s[i] == front[i]);
            }
        }
    }
}

/// For the entries of a directory, whose names are distinct, the GPUs come
/// out in strictly ascending order of card name, each card exactly once:
/// a GPU for every entry whose name starts with `card` and holds no `-`,
/// and none for connectors (`card1-DP-1`), render nodes or anything else.
pub proof fn law_directory_cards_once_in_ascending_order(entries: Seq<DrmEntry>)
    requires
        distinct_names(entries),
    ensures
        strictly_ordered_by_card(enumerated(entries)),
        forall|i: int, j: int|
            0 <= i < j < enumerated(entries).len() ==> (#[trigger] enumerated(entries)[i]).card
                != (#[trigger] enumerated(entries)[j]).card,
        forall|k: Seq<char>| #[trigger] has_card(enumerated(entries), k) <==> names_card(entries, k),
{
    lemma_listed_cards(entries);
    let l = listed_gpus(entries);
    lemma_sort_strict(l);
    let r = enumerated(entries);
    assert forall|i: int, j: int| 0 <= i < j < r.len() implies (#[trigger] r[i]).card
        != (#[trigger] r[j]).card by {
        lemma_text_lt_irreflexive(r[i].card);
    }
    assert forall|k: Seq<char>| #[trigger] has_card(r, k) <==> names_card(entries, k) by {
        assert(has_card(r, k) <==> has_card(l, k));
    }
}


/// Whether a flag file such as `boot_vga` is present and reads `v`, blanks
/// around it ignored.
pub open spec fn flag_reads(raw: Option<String>, v: Seq<char>) -> bool {
    text_of(raw) matches Some(t) && trim(t) == v
}

/// Reading one entry: it is a GPU exactly when its name starts with `card`
/// and holds no `-`; the GPU is named after the entry, its vendor is the
/// hexadecimal id of the `vendor` file (blanks and `0x` prefixes dropped),
/// its driver the last component of the `driver` link, and it drives the
/// session exactly when `boot_vga` or `boot_display` reads `1`. So a card
/// whose flag files read `0`, or are missing, does not drive the session.
pub proof fn law_card_entry_reading(e: DrmEntry)
    ensures
        entry_gpu(e) is Some <==> (e.name matches Some(n) && has_prefix(n@, "card"@)
            && !n@.contains('-')),
        entry_gpu(e) matches Some(g) ==> {
            &&& text_of(e.name) == Some(g.card)
            &&& g.primary == (flag_reads(e.boot_vga, "1"@) || flag_reads(e.boot_display, "1"@))
            &&& g.vendor == match text_of(e.vendor) {
                Some(t) => parse_hex_u32(strip_hex_prefixes(trim(t))),
                None => None,
            }
            &&& g.driver == match text_of(e.driver_link) {
                Some(l) => path_file_name(l),
                None => None,
            }
        },
        entry_gpu(e) is Some && (e.boot_vga is None || flag_reads(e.boot_vga, "0"@)) && (
        e.boot_display is None || flag_reads(e.boot_display, "0"@)) ==> !entry_gpu(e)->0.primary,
{
    assert("0"@ != "1"@) by {
        reveal_strlit("0");
        reveal_strlit("1");
        assert("0"@[0] != "1"@[0]);
    }
}

/// The session: a backend that `GDK_BACKEND` names wins; else
/// `XDG_SESSION_TYPE` when it reads `wayland` or `x11`; else a set
/// `WAYLAND_DISPLAY` or `WAYLAND_SOCKET` means Wayland, whatever `DISPLAY`
/// holds; else a set `DISPLAY` means X11; else the session is unknown.
pub proof fn law_session_from_environment(env: Env)
    ensures
        backend_choice(text_of(env.gdk_backend)) matches Some(b) ==> session_of(env) == b,
        backend_choice(text_of(env.gdk_backend)) is None && reads(env.xdg_session_type, "wayland"@)
            ==> session_of(env) == SessionType::Wayland,
        backend_choice(text_of(env.gdk_backend)) is None && reads(env.xdg_session_type, "x11"@)
            ==> session_of(env) == SessionType::X11,
        backend_choice(text_of(env.gdk_backend)) is None && !reads(
            env.xdg_session_type,
            "wayland"@,
        ) && !reads(env.xdg_session_type, "x11"@) && (env.wayland_display is Some
            || env.wayland_socket is Some) ==> session_of(env) == SessionType::Wayland,
        backend_choice(text_of(env.gdk_backend)) is None && !reads(
            env.xdg_session_type,
            "wayland"@,
        ) && !reads(env.xdg_session_type, "x11"@) && env.wayland_display is None
            && env.wayland_socket is None && env.display is Some ==> session_of(env)
            == SessionType::X11,
        backend_choice(text_of(env.gdk_backend)) is None && !reads(
            env.xdg_session_type,
            "wayland"@,
        ) && !reads(env.xdg_session_type, "x11"@) && env.wayland_display is None
            && env.wayland_socket is None && env.display is None ==> session_of(env)
            == SessionType::Unknown,
{
    assert("wayland"@ != "x11"@) by {
        reveal_strlit("wayland");
        reveal_strlit("x11");
        assert("wayland"@.len() != "x11"@.len());
    }
}

/// `DISPLAY` never changes the session of an environment that has a
/// Wayland socket variable set: XWayland's `DISPLAY` beside
/// `WAYLAND_DISPLAY` is still a Wayland session.
pub proof fn law_display_does_not_outrank_wayland_sockets(env: Env, other: Env)
    requires
        env.wayland_display is Some || env.wayland_socket is Some,
        other.gdk_backend == env.gdk_backend,
        other.xdg_session_type == env.xdg_session_type,
        other.wayland_display == env.wayland_display,
        other.wayland_socket == env.wayland_socket,
    ensures
        session_of(other) == session_of(env),
{
}

/// A GPU that qualifies as the one that matters: NVIDIA, and driving the
/// session unless PRIME offload is on or no GPU is marked as driving it.
pub open spec fn qualifies(gpus: Seq<GpuView>, g: GpuView, prime_offload: bool) -> bool {
    is_nvidia_gpu(g) && (prime_offload || !any_primary(gpus) || g.primary)
}

/// The decision's naming of a GPU that qualifies.
pub open spec fn nvidia_apply(session: SessionType) -> DecisionView {
    DecisionView::Apply { gpu: hex_label(NVIDIA_VENDOR), driver: "nvidia"@, session }
}

proof fn lemma_qualifying_target(gpus: Seq<GpuView>, prime_offload: bool)
    requires
        exists|i: int| 0 <= i < gpus.len() && qualifies(gpus, #[trigger] gpus[i], prime_offload),
    ensures
        target_gpu(gpus, prime_offload) matches Some(g) && is_nvidia_gpu(g),
        vendor_label(target_gpu(gpus, prime_offload)) == hex_label(NVIDIA_VENDOR),
        driver_label(target_gpu(gpus, prime_offload)) == "nvidia"@,
{
    law_target_gpu_qualifies(gpus, prime_offload);
    let i = choose|i: int| 0 <= i < gpus.len() && qualifies(gpus, #[trigger] gpus[i], prime_offload);
    if target_gpu(gpus, prime_offload) is None {
        assert(!(is_nvidia_gpu(gpus[i]) && (prime_offload || !any_primary(gpus) || gpus[i].primary)));
    }
}

/// Unless `TAURI_WAYLAND_NVIDIA_QUIRK` is `0` or `1` or
/// `WEBKIT_DISABLE_DMABUF_RENDERER` is `1`, a Wayland session (as the session
/// detection gives it, sockets included) with an NVIDIA GPU that qualifies
/// is decided Apply, naming vendor `0x10de`, driver `nvidia` and Wayland;
/// without one that qualifies, it is not affected for want of NVIDIA.
pub proof fn law_wayland_with_nvidia_applies(env: Env, gpus: Seq<GpuView>)
    requires
        !reads(env.force, "0"@),
        !reads(env.force, "1"@),
        !reads(env.webkit_disable_dmabuf, "1"@),
        session_of(env) == SessionType::Wayland,
    ensures
        (exists|i: int|
            0 <= i < gpus.len() && qualifies(gpus, #[trigger] gpus[i], env.prime_offload is Some))
            ==> decision_for(env, gpus) == nvidia_apply(SessionType::Wayland),
        (forall|i: int|
            0 <= i < gpus.len() ==> !qualifies(gpus, #[trigger] gpus[i], env.prime_offload is Some))
            ==> decision_for(env, gpus) == DecisionView::NotAffected(NotAffectedReason::NotNvidia),
{
    let prime = env.prime_offload is Some;
    law_target_gpu_qualifies(gpus, prime);
    if exists|i: int| 0 <= i < gpus.len() && qualifies(gpus, #[trigger] gpus[i], prime) {
        lemma_qualifying_target(gpus, prime);
    }
    if target_gpu(gpus, prime) is Some {
        let g = target_gpu(gpus, prime)->0;
        let j = choose|j: int| 0 <= j < gpus.len() && gpus[j] == g;
        assert(qualifies(gpus, gpus[j], prime));
    }
}

/// With `TAURI_WAYLAND_NVIDIA_QUIRK=1` the decision applies, in the session
/// that was detected, whatever it is and whatever
/// `WEBKIT_DISABLE_DMABUF_RENDERER` says; it names vendor `0x10de` and
/// driver `nvidia` when an NVIDIA GPU qualifies, and `unknown` for both
/// when none does.
pub proof fn law_forced_on_names_the_nvidia_gpu(env: Env, gpus: Seq<GpuView>)
    requires
        reads(env.force, "1"@),
    ensures
        (exists|i: int|
            0 <= i < gpus.len() && qualifies(gpus, #[trigger] gpus[i], env.prime_offload is Some))
            ==> decision_for(env, gpus) == nvidia_apply(session_of(env)),
        (forall|i: int|
            0 <= i < gpus.len() ==> !qualifies(gpus, #[trigger] gpus[i], env.prime_offload is Some))
            ==> decision_for(env, gpus) == (DecisionView::Apply {
            gpu: "unknown"@,
            driver: "unknown"@,
            session: session_of(env),
        }),
{
    let prime = env.prime_offload is Some;
    assert("0"@ != "1"@) by {
        reveal_strlit("0");
        reveal_strlit("1");
        assert("0"@[0] != "1"@[0]);
    }
    law_target_gpu_qualifies(gpus, prime);
    if exists|i: int| 0 <= i < gpus.len() && qualifies(gpus, #[trigger] gpus[i], prime) {
        lemma_qualifying_target(gpus, prime);
    }
    if target_gpu(gpus, prime) is Some {
        let g = target_gpu(gpus, prime)->0;
        let j = choose|j: int| 0 <= j < gpus.len() && gpus[j] == g;
        assert(qualifies(gpus, gpus[j], prime));
    }
}


proof fn lemma_listed_are_entry_readings(entries: Seq<DrmEntry>)
    ensures
        forall|i: int|
            0 <= i < listed_gpus(entries).len() ==> exists|j: int|
                0 <= j < entries.len() && entry_gpu(#[trigger] entries[j]) == Some(
                    #[trigger] listed_gpus(entries)[i],
                ),
        forall|j: int|
            0 <= j < entries.len() && (#[trigger] entry_gpu(entries[j])) is Some
                ==> listed_gpus(entries).contains(entry_gpu(entries[j])->0),
    decreases entries.len(),
{
    if entries.len() > 0 {
        let front = entries.drop_last();
        let e = entries.last();
        assert(e == entries[entries.len() - 1]);
        lemma_listed_are_entry_readings(front);
        let lf = listed_gpus(front);
        let l = listed_gpus(entries);
        assert forall|i: int| 0 <= i < l.len() implies exists|j: int|
            0 <= j < entries.len() && entry_gpu(#[trigger] entries[j]) == Some(
                #[trigger] l[i],
            ) by {
            if i < lf.len() {
                assert(l[i] == lf[i]);
                let j = choose|j: int|
                    0 <= j < front.len() && entry_gpu(#[trigger] front[j]) == Some(lf[i]);
                assert(entries[j] == front[j]);
            } else {
                assert(entry_gpu(e) == Some(l[i]));
            }
        }
        assert forall|j: int|
            0 <= j < entries.len() && (#[trigger] entry_gpu(entries[j])) is Some implies l.contains(
            entry_gpu(entries[j])->0,
        ) by {
            if j < front.len() {
                assert(entries[j] == front[j]);
                assert(entry_gpu(front[j]) is Some);
                let k = choose|k: int| 0 <= k < lf.len() && lf[k] == entry_gpu(front[j])->0;
                assert(l[k] == lf[k]);
            } else {
                assert(l[l.len() - 1] == entry_gpu(e)->0);
            }
        }
    }
}

/// Each GPU that enumeration gives is exactly what reading its own entry
/// alone gives, and every card entry's reading is among them: enumeration
/// only orders the readings.
pub proof fn law_each_gpu_is_its_entry_read_alone(entries: Seq<DrmEntry>)
    ensures
        forall|i: int|
            0 <= i < enumerated(entries).len() ==> exists|j: int|
                0 <= j < entries.len() && entry_gpu(#[trigger] entries[j]) == Some(
                    #[trigger] enumerated(entries)[i],
                ),
        forall|j: int|
            0 <= j < entries.len() && (#[trigger] entry_gpu(entries[j])) is Some
                ==> enumerated(entries).contains(entry_gpu(entries[j])->0),
{
    let l = listed_gpus(entries);
    let r = enumerated(entries);
    lemma_listed_are_entry_readings(entries);
    lemma_sort_by_card(l);
    assert forall|i: int| 0 <= i < r.len() implies exists|j: int|
        0 <= j < entries.len() && entry_gpu(#[trigger] entries[j]) == Some(#[trigger] r[i]) by {
        let f = card_is(r[i].card);
        r.lemma_filter_contains(f, i);
        assert(r.filter(f) == l.filter(f));
        l.lemma_filter_contains_rev(f, r[i]);
        let m = choose|m: int| 0 <= m < l.len() && l[m] == r[i];
        assert(l[m] == r[i]);
    }
    assert forall|j: int|
        0 <= j < entries.len() && (#[trigger] entry_gpu(entries[j])) is Some implies r.contains(
        entry_gpu(entries[j])->0,
    ) by {
        let g = entry_gpu(entries[j])->0;
        let f = card_is(g.card);
        assert(l.contains(g));
        let m = choose|m: int| 0 <= m < l.len() && l[m] == g;
        l.lemma_filter_contains(f, m);
        assert(r.filter(f) == l.filter(f));
        r.lemma_filter_contains_rev(f, g);
    }
}

} // verus!
