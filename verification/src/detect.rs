//! Deciding whether this machine has the bug.

use vstd::prelude::*;

use crate::status::{NotAffectedReason, SessionType};
use crate::text::{
    contains_char, file_name, format_hex_label, has_prefix, hex_label, parse_hex,
    parse_hex_u32, path_file_name, same_text, split_on, split_pieces, starts_with,
    strip_hex_prefixes, text_less, text_lt, trim, trimmed, without_hex_prefixes,
};

verus! {

/// NVIDIA's PCI vendor id.
pub const NVIDIA_VENDOR: u32 = 0x10de;

/// The environment the decision is made from.
#[derive(Debug, Clone, Default)]
pub struct Env {
    /// `GDK_BACKEND`
    pub gdk_backend: Option<String>,
    /// `XDG_SESSION_TYPE`
    pub xdg_session_type: Option<String>,
    /// `WAYLAND_DISPLAY`
    pub wayland_display: Option<String>,
    /// `WAYLAND_SOCKET`
    pub wayland_socket: Option<String>,
    /// `DISPLAY`
    pub display: Option<String>,
    /// `WEBKIT_DISABLE_DMABUF_RENDERER`
    pub webkit_disable_dmabuf: Option<String>,
    /// `__NV_PRIME_RENDER_OFFLOAD`
    pub prime_offload: Option<String>,
    /// `TAURI_WAYLAND_NVIDIA_QUIRK`
    pub force: Option<String>,
    /// `TAURI_WAYLAND_NVIDIA_QUIRK_VERBOSE`
    pub verbose: Option<String>,
}

/// The characters of an optional text.
pub open spec fn text_of(o: Option<String>) -> Option<Seq<char>> {
    match o {
        Some(s) => Some(s@),
        None => None,
    }
}

/// Whether an optional text is present and reads exactly `t`.
pub open spec fn reads(o: Option<String>, t: Seq<char>) -> bool {
    text_of(o) == Some(t)
}

/// `o.as_deref() == Some(t)`.
fn text_reads(o: &Option<String>, t: &str) -> (r: bool)
    ensures
        r == reads(*o, t@),
{
    match o {
        Some(s) => same_text(s.as_str(), t),
        None => false,
    }
}

impl Env {
    /// Whether `TAURI_WAYLAND_NVIDIA_QUIRK_VERBOSE=1`.
    pub fn is_verbose(&self) -> (r: bool)
        ensures
            r == reads(self.verbose, "1"@),
    {
        text_reads(&self.verbose, "1")
    }
}

/// The backend that one `GDK_BACKEND` entry names, if GDK knows it by that
/// name and this crate cares about it.
pub open spec fn backend_named(item: Seq<char>) -> Option<SessionType> {
    let t = trim(item);
    if t == "wayland"@ {
        Some(SessionType::Wayland)
    } else if t == "x11"@ {
        Some(SessionType::X11)
    } else {
        None
    }
}

/// The first entry of `items` that names a backend.
pub open spec fn first_backend(items: Seq<Seq<char>>) -> Option<SessionType>
    decreases items.len(),
{
    if items.len() == 0 {
        None
    } else {
        match backend_named(items[0]) {
            Some(b) => Some(b),
            None => first_backend(items.drop_first()),
        }
    }
}

/// The backend GDK will pick for a `GDK_BACKEND` value: the first entry of
/// the comma-separated list that is `wayland` or `x11`, blanks around it
/// ignored.
pub open spec fn backend_choice(list: Option<Seq<char>>) -> Option<SessionType> {
    match list {
        Some(l) => first_backend(split_on(l, ',')),
        None => None,
    }
}

/// Parses `GDK_BACKEND` into the backend GDK will actually pick.
pub fn parse_gdk_backend(list: Option<&str>) -> (r: Option<SessionType>)
    ensures
        r == backend_choice(
            match list {
                Some(l) => Some(l@),
                None => None,
            },
        ),
{
    match list {
        Some(l) => first_backend_in(l),
        None => None,
    }
}

fn first_backend_in(l: &str) -> (r: Option<SessionType>)
    ensures
        r == first_backend(split_on(l@, ',')),
{
    let pieces = split_pieces(l, ',');
    let ghost items = split_on(l@, ',');
    let mut i: usize = 0;
    assert(items.skip(0) == items);
    while i < pieces.len()
        invariant
            i <= pieces.len(),
            items == split_on(l@, ','),
            pieces.len() == items.len(),
            forall|j: int| 0 <= j < pieces.len() ==> #[trigger] pieces[j]@ == items[j],
            first_backend(items) == first_backend(items.skip(i as int)),
        decreases pieces.len() - i,
    {
        let ghost rest = items.skip(i as int);
        assert(rest[0] == items[i as int]);
        assert(rest.drop_first() == items.skip(i + 1));
        let t = trimmed(pieces[i].as_str());
        if same_text(t.as_str(), "wayland") {
            return Some(SessionType::Wayland);
        }
        if same_text(t.as_str(), "x11") {
            return Some(SessionType::X11);
        }
        i = i + 1;
    }
    None
}

/// The session the process is in: `GDK_BACKEND` first, then
/// `XDG_SESSION_TYPE`, then the socket variables.
pub open spec fn session_of(env: Env) -> SessionType {
    match backend_choice(text_of(env.gdk_backend)) {
        Some(s) => s,
        None => if reads(env.xdg_session_type, "wayland"@) {
            SessionType::Wayland
        } else if reads(env.xdg_session_type, "x11"@) {
            SessionType::X11
        } else if env.wayland_display is Some || env.wayland_socket is Some {
            SessionType::Wayland
        } else if env.display is Some {
            SessionType::X11
        } else {
            SessionType::Unknown
        },
    }
}

/// `GDK_BACKEND` outranks everything, because it is what GDK and WebKitGTK act
/// on. `XDG_SESSION_TYPE` comes next, then the socket variables, which are all
/// that is left when the process inherited no session environment (a systemd
/// unit, `sudo`, a `.desktop` launch with a scrubbed environment).
pub fn session_type(env: &Env) -> (r: SessionType)
    ensures
        r == session_of(*env),
{
    let backend = match &env.gdk_backend {
        Some(list) => parse_gdk_backend(Some(list.as_str())),
        None => parse_gdk_backend(None),
    };
    if let Some(session) = backend {
        return session;
    }
    if text_reads(&env.xdg_session_type, "wayland") {
        return SessionType::Wayland;
    }
    if text_reads(&env.xdg_session_type, "x11") {
        return SessionType::X11;
    }
    if env.wayland_display.is_some() || env.wayland_socket.is_some() {
        return SessionType::Wayland;
    }
    if env.display.is_some() {
        return SessionType::X11;
    }
    SessionType::Unknown
}


/// A GPU as `/sys/class/drm` describes it.
#[derive(Debug, Clone, PartialEq, Eq)]
pub struct Gpu {
    /// The entry's name, e.g. `card1`.
    pub card: String,
    /// The PCI vendor id from `device/vendor`.
    pub vendor: Option<u32>,
    /// The kernel driver that `device/driver` links to.
    pub driver: Option<String>,
    /// `boot_vga` or `boot_display`: this is the GPU driving the session.
    pub primary: bool,
}

/// A [`Gpu`] with its texts as character sequences.
pub struct GpuView {
    pub card: Seq<char>,
    pub vendor: Option<u32>,
    pub driver: Option<Seq<char>>,
    pub primary: bool,
}

impl View for Gpu {
    type V = GpuView;

    open spec fn view(&self) -> GpuView {
        GpuView {
            card: self.card@,
            vendor: self.vendor,
            driver: text_of(self.driver),
            primary: self.primary,
        }
    }
}

/// The views of a list of GPUs.
pub open spec fn gpu_views(gpus: Seq<Gpu>) -> Seq<GpuView> {
    gpus.map_values(|g: Gpu| g@)
}

/// An NVIDIA GPU bound to the proprietary or open `nvidia` kernel module.
pub open spec fn is_nvidia_gpu(g: GpuView) -> bool {
    g.vendor == Some(NVIDIA_VENDOR) && g.driver == Some("nvidia"@)
}

impl Gpu {
    /// Vendor `0x10de` and driver `nvidia`.
    pub fn is_nvidia(&self) -> (r: bool)
        ensures
            r == is_nvidia_gpu(self@),
    {
        self.vendor == Some(NVIDIA_VENDOR) && text_reads(&self.driver, "nvidia")
    }
}

/// What one entry of a `/sys/class/drm` style directory holds, as read from
/// disk: each field is `None` where the file could not be read as text.
#[derive(Debug, Clone, Default)]
pub struct DrmEntry {
    /// The entry's name, e.g. `card0` or `card0-DP-1`.
    pub name: Option<String>,
    /// The contents of `device/vendor`.
    pub vendor: Option<String>,
    /// The contents of `device/boot_vga`.
    pub boot_vga: Option<String>,
    /// The contents of `device/boot_display`.
    pub boot_display: Option<String>,
    /// Where the `device/driver` link points.
    pub driver_link: Option<String>,
}

/// A card, not a connector (`card0-DP-1`) or a render node (`renderD128`).
pub open spec fn is_card_name(name: Seq<char>) -> bool {
    has_prefix(name, "card"@) && !name.contains('-')
}

/// The vendor id in a `vendor` file: hexadecimal, `0x` prefixes dropped.
pub open spec fn vendor_reading(raw: Option<Seq<char>>) -> Option<u32> {
    match raw {
        Some(t) => parse_hex_u32(strip_hex_prefixes(trim(t))),
        None => None,
    }
}

/// Whether a flag file such as `boot_vga` reads `1`.
pub open spec fn flag_set(raw: Option<Seq<char>>) -> bool {
    match raw {
        Some(t) => trim(t) == "1"@,
        None => false,
    }
}

/// The driver's name: the last component of the link's target.
pub open spec fn driver_reading(link: Option<Seq<char>>) -> Option<Seq<char>> {
    match link {
        Some(l) => path_file_name(l),
        None => None,
    }
}

/// The GPU that an entry describes, if it is a card.
pub open spec fn entry_gpu(e: DrmEntry) -> Option<GpuView> {
    match e.name {
        Some(n) => if is_card_name(n@) {
            Some(
                GpuView {
                    card: n@,
                    vendor: vendor_reading(text_of(e.vendor)),
                    driver: driver_reading(text_of(e.driver_link)),
                    primary: flag_set(text_of(e.boot_vga)) || flag_set(text_of(e.boot_display)),
                },
            )
        } else {
            None
        },
        None => None,
    }
}

/// The GPUs among the entries, in the entries' order.
pub open spec fn listed_gpus(entries: Seq<DrmEntry>) -> Seq<GpuView>
    decreases entries.len(),
{
    if entries.len() == 0 {
        Seq::empty()
    } else {
        match entry_gpu(entries.last()) {
            Some(g) => listed_gpus(entries.drop_last()).push(g),
            None => listed_gpus(entries.drop_last()),
        }
    }
}

/// Where `x` goes in a list ordered by card name: after every GPU whose card
/// name does not come after its own.
pub open spec fn insert_position(t: Seq<GpuView>, x: GpuView) -> nat
    decreases t.len(),
{
    if t.len() == 0 {
        0
    } else if text_lt(x.card, t[0].card) {
        0
    } else {
        1 + insert_position(t.drop_first(), x)
    }
}

/// `t` with `x` inserted by card name.
pub open spec fn insert_by_card(t: Seq<GpuView>, x: GpuView) -> Seq<GpuView> {
    let p = insert_position(t, x) as int;
    t.take(p) + seq![x] + t.skip(p)
}

/// `s` sorted by card name, stably.
pub open spec fn sort_by_card(s: Seq<GpuView>) -> Seq<GpuView>
    decreases s.len(),
{
    if s.len() == 0 {
        s
    } else {
        insert_by_card(sort_by_card(s.drop_last()), s.last())
    }
}

/// The GPUs that a directory's entries describe, ordered by card name.
pub open spec fn enumerated(entries: Seq<DrmEntry>) -> Seq<GpuView> {
    sort_by_card(listed_gpus(entries))
}

/// `o.as_deref().map(str::trim)`.
fn trimmed_text(o: &Option<String>) -> (r: Option<String>)
    ensures
        text_of(r) == match text_of(*o) {
            Some(t) => Some(trim(t)),
            None => None,
        },
{
    match o {
        Some(s) => Some(trimmed(s.as_str())),
        None => None,
    }
}

/// The GPU that one directory entry describes, if it is a card.
pub fn gpu_from_entry(entry: &DrmEntry) -> (r: Option<Gpu>)
    ensures
        match r {
            Some(g) => entry_gpu(*entry) == Some(g@),
            None => entry_gpu(*entry) is None,
        },
{
    let name = match &entry.name {
        Some(name) => name,
        None => return None,
    };
    if !starts_with(name.as_str(), "card") || contains_char(name.as_str(), '-') {
        return None;
    }
    let vendor = match trimmed_text(&entry.vendor) {
        Some(v) => parse_hex(without_hex_prefixes(v.as_str()).as_str()),
        None => None,
    };
    let driver = match &entry.driver_link {
        Some(link) => file_name(link.as_str()),
        None => None,
    };
    let boot_vga = trimmed_text(&entry.boot_vga);
    let boot_display = trimmed_text(&entry.boot_display);
    let primary = text_reads(&boot_vga, "1") || text_reads(&boot_display, "1");
    Some(Gpu { card: name.clone(), vendor, driver, primary })
}

/// Enumerates the GPUs among the entries of a `/sys/class/drm` style
/// directory, ordered by card name.
pub fn enumerate_gpus(entries: &[DrmEntry]) -> (r: Vec<Gpu>)
    ensures
        gpu_views(r@) == enumerated(entries@),
{
    let mut gpus: Vec<Gpu> = Vec::new();
    let mut i: usize = 0;
    while i < entries.len()
        invariant
            i <= entries.len(),
            gpu_views(gpus@) == sort_by_card(listed_gpus(entries@.take(i as int))),
        decreases entries.len() - i,
    {
        let ghost front = entries@.take(i + 1);
        assert(front.drop_last() == entries@.take(i as int));
        assert(front.last() == entries@[i as int]);
        match gpu_from_entry(&entries[i]) {
            Some(g) => {
                let ghost t = gpu_views(gpus@);
                let ghost x = g@;
                let mut p: usize = 0;
                assert(t.skip(0) == t);
                while p < gpus.len() && !text_less(g.card.as_str(), gpus[p].card.as_str())
                    invariant
                        p <= gpus.len(),
                        t == gpu_views(gpus@),
                        x == g@,
                        insert_position(t, x) == p + insert_position(t.skip(p as int), x),
                    decreases gpus.len() - p,
                {
                    assert(t.skip(p as int)[0] == t[p as int]);
                    assert(t.skip(p as int).drop_first() == t.skip(p + 1));
                    p = p + 1;
                }
                proof {
                    if p < gpus.len() {
                        assert(t.skip(p as int)[0] == t[p as int]);
                    }
                }
                gpus.insert(p, g);
                assert(gpu_views(gpus@) == t.take(p as int) + seq![x] + t.skip(p as int));
                proof {
                    let listed = listed_gpus(entries@.take(i as int));
                    assert(listed_gpus(front) == listed.push(x));
                    assert(listed.push(x).drop_last() == listed);
                    assert(listed.push(x).last() == x);
                }
            },
            None => {
                assert(listed_gpus(front) == listed_gpus(entries@.take(i as int)));
            },
        }
        i = i + 1;
    }
    assert(entries@.take(entries.len() as int) == entries@);
    gpus
}


/// The first NVIDIA GPU in `s`, or with `primary_only`, the first that is
/// also marked as driving the session.
pub open spec fn first_nvidia(s: Seq<GpuView>, primary_only: bool) -> Option<GpuView>
    decreases s.len(),
{
    if s.len() == 0 {
        None
    } else if is_nvidia_gpu(s[0]) && (s[0].primary || !primary_only) {
        Some(s[0])
    } else {
        first_nvidia(s.drop_first(), primary_only)
    }
}

/// Whether some GPU in `s` is marked as driving the session.
pub open spec fn any_primary(s: Seq<GpuView>) -> bool {
    exists|i: int| 0 <= i < s.len() && (#[trigger] s[i]).primary
}

/// The NVIDIA GPU that matters: under PRIME offload, or when no GPU is
/// marked as driving the session, the first NVIDIA GPU; otherwise the
/// first one that drives the session.
pub open spec fn target_gpu(s: Seq<GpuView>, prime_offload: bool) -> Option<GpuView> {
    if prime_offload || !any_primary(s) {
        first_nvidia(s, false)
    } else {
        first_nvidia(s, true)
    }
}

fn find_nvidia(gpus: &[Gpu], primary_only: bool) -> (r: Option<&Gpu>)
    ensures
        match r {
            Some(g) => first_nvidia(gpu_views(gpus@), primary_only) == Some(g@),
            None => first_nvidia(gpu_views(gpus@), primary_only) is None,
        },
{
    let ghost s = gpu_views(gpus@);
    let mut i: usize = 0;
    assert(s.skip(0) == s);
    while i < gpus.len()
        invariant
            i <= gpus.len(),
            s == gpu_views(gpus@),
            first_nvidia(s, primary_only) == first_nvidia(s.skip(i as int), primary_only),
        decreases gpus.len() - i,
    {
        let gpu = &gpus[i];
        assert(s.skip(i as int)[0] == gpu@);
        assert(s.skip(i as int).drop_first() == s.skip(i + 1));
        if gpu.is_nvidia() && (gpu.primary || !primary_only) {
            return Some(gpu);
        }
        i = i + 1;
    }
    None
}

/// Picks the NVIDIA GPU that matters, if there is one.
pub fn nvidia_target(gpus: &[Gpu], prime_offload: bool) -> (r: Option<&Gpu>)
    ensures
        match r {
            Some(g) => target_gpu(gpu_views(gpus@), prime_offload) == Some(g@),
            None => target_gpu(gpu_views(gpus@), prime_offload) is None,
        },
{
    let ghost s = gpu_views(gpus@);
    let mut any: bool = false;
    let mut i: usize = 0;
    while i < gpus.len()
        invariant
            i <= gpus.len(),
            s == gpu_views(gpus@),
            any == exists|j: int| 0 <= j < i && (#[trigger] s[j]).primary,
        decreases gpus.len() - i,
    {
        assert(s[i as int] == gpus@[i as int]@);
        if gpus[i].primary {
            any = true;
        }
        i = i + 1;
    }
    if prime_offload || !any {
        find_nvidia(gpus, false)
    } else {
        find_nvidia(gpus, true)
    }
}

/// What the plugin should do.
#[derive(Debug, Clone, PartialEq, Eq)]
pub enum Decision {
    /// The system has the bug: force the GL context.
    Apply {
        /// The matched GPU's vendor id, as `0x10de`, or `unknown`.
        gpu: String,
        /// The matched GPU's kernel driver, or `unknown`.
        driver: String,
        /// The session that was detected.
        session: SessionType,
    },
    /// The system does not have the bug.
    NotAffected(NotAffectedReason),
    /// An environment variable told the quirk to stand down; it reads
    /// `NAME=value`.
    Overridden(String),
}

/// A [`Decision`] with its texts as character sequences.
pub enum DecisionView {
    Apply { gpu: Seq<char>, driver: Seq<char>, session: SessionType },
    NotAffected(NotAffectedReason),
    Overridden(Seq<char>),
}

impl View for Decision {
    type V = DecisionView;

    open spec fn view(&self) -> DecisionView {
        match self {
            Decision::Apply { gpu, driver, session } => DecisionView::Apply {
                gpu: gpu@,
                driver: driver@,
                session: *session,
            },
            Decision::NotAffected(reason) => DecisionView::NotAffected(*reason),
            Decision::Overridden(by) => DecisionView::Overridden(by@),
        }
    }
}

/// How a decision names the matched GPU: its vendor id as `0x10de`, or
/// `unknown`.
pub open spec fn vendor_label(target: Option<GpuView>) -> Seq<char> {
    match target {
        Some(g) => match g.vendor {
            Some(v) => hex_label(v),
            None => "unknown"@,
        },
        None => "unknown"@,
    }
}

/// How a decision names the matched GPU's driver, or `unknown`.
pub open spec fn driver_label(target: Option<GpuView>) -> Seq<char> {
    match target {
        Some(g) => match g.driver {
            Some(d) => d,
            None => "unknown"@,
        },
        None => "unknown"@,
    }
}

/// The whole decision, from the environment and the GPUs found:
/// `TAURI_WAYLAND_NVIDIA_QUIRK=0` never applies, `=1` always applies,
/// `WEBKIT_DISABLE_DMABUF_RENDERER=1` stands down, and otherwise the quirk
/// applies on Wayland with an NVIDIA GPU that matters.
pub open spec fn decision_for(env: Env, gpus: Seq<GpuView>) -> DecisionView {
    let target = target_gpu(gpus, env.prime_offload is Some);
    if reads(env.force, "0"@) {
        DecisionView::Overridden("TAURI_WAYLAND_NVIDIA_QUIRK=0"@)
    } else if reads(env.force, "1"@) {
        DecisionView::Apply {
            gpu: vendor_label(target),
            driver: driver_label(target),
            session: session_of(env),
        }
    } else if reads(env.webkit_disable_dmabuf, "1"@) {
        DecisionView::Overridden("WEBKIT_DISABLE_DMABUF_RENDERER=1"@)
    } else if session_of(env) != SessionType::Wayland {
        DecisionView::NotAffected(NotAffectedReason::NotWayland)
    } else if target is Some {
        DecisionView::Apply {
            gpu: vendor_label(target),
            driver: driver_label(target),
            session: SessionType::Wayland,
        }
    } else {
        DecisionView::NotAffected(NotAffectedReason::NotNvidia)
    }
}

fn label_vendor(target: Option<&Gpu>) -> (r: String)
    ensures
        r@ == vendor_label(
            match target {
                Some(g) => Some(g@),
                None => None,
            },
        ),
{
    match target {
        Some(g) => match g.vendor {
            Some(v) => format_hex_label(v),
            None => String::from_str("unknown"),
        },
        None => String::from_str("unknown"),
    }
}

fn label_driver(target: Option<&Gpu>) -> (r: String)
    ensures
        r@ == driver_label(
            match target {
                Some(g) => Some(g@),
                None => None,
            },
        ),
{
    match target {
        Some(g) => match &g.driver {
            Some(d) => d.clone(),
            None => String::from_str("unknown"),
        },
        None => String::from_str("unknown"),
    }
}

/// The whole decision, from inputs a test can fabricate: the environment
/// and the entries of the `/sys/class/drm` directory.
pub fn decide(env: &Env, entries: &[DrmEntry]) -> (d: Decision)
    ensures
        d@ == decision_for(*env, enumerated(entries@)),
{
    let prime_offload = env.prime_offload.is_some();
    if text_reads(&env.force, "0") {
        return Decision::Overridden(String::from_str("TAURI_WAYLAND_NVIDIA_QUIRK=0"));
    }
    if text_reads(&env.force, "1") {
        let gpus = enumerate_gpus(entries);
        let target = nvidia_target(gpus.as_slice(), prime_offload);
        return Decision::Apply {
            gpu: label_vendor(target),
            driver: label_driver(target),
            session: session_type(env),
        };
    }
    // taking WebKit off the GL path already avoids the bad frame, and the two
    // workarounds together are more disruptive than either alone
    if text_reads(&env.webkit_disable_dmabuf, "1") {
        return Decision::Overridden(String::from_str("WEBKIT_DISABLE_DMABUF_RENDERER=1"));
    }
    let session = session_type(env);
    if session != SessionType::Wayland {
        return Decision::NotAffected(NotAffectedReason::NotWayland);
    }
    let gpus = enumerate_gpus(entries);
    let target = nvidia_target(gpus.as_slice(), prime_offload);
    match target {
        Some(_) => Decision::Apply {
            gpu: label_vendor(target),
            driver: label_driver(target),
            session,
        },
        None => Decision::NotAffected(NotAffectedReason::NotNvidia),
    }
}

} // verus!
