//! Decisions of the visualiser window that involve no signal arithmetic:
//! which port stays selected after a rescan, how ports are labelled, the
//! effective sample rate and history depth, and recording file names.
use crate::events::PortInfo;
use vstd::prelude::*;

verus! {

/// Sample rate used when none (zero) is configured.
pub const DEFAULT_SAMPLE_RATE: u32 = 32000;

/// Seconds of audio kept in the history ring buffers.
pub const HISTORY_SECONDS: u64 = 30;

/// The name of the port at index `prev` of `ports`, if `prev` selects one.
pub open spec fn selected_port_name(prev: Option<usize>, ports: Seq<PortInfo>) -> Option<Seq<char>> {
    match prev {
        Some(i) => if i < ports.len() {
            Some(ports[i as int].name@)
        } else {
            None
        },
        None => None,
    }
}

/// `j` is the first index of `ports` whose name is `name`.
pub open spec fn is_first_named(ports: Seq<PortInfo>, name: Seq<char>, j: int) -> bool {
    &&& 0 <= j < ports.len()
    &&& ports[j].name@ == name
    &&& forall|k: int| 0 <= k < j ==> ports[k].name@ != name
}

/// Some port of `ports` is named `name`.
pub open spec fn has_port_named(ports: Seq<PortInfo>, name: Seq<char>) -> bool {
    exists|j: int| 0 <= j < ports.len() && #[trigger] ports[j].name@ == name
}

/// After a port rescan replaced `old_ports` by `new_ports`, the selection
/// follows the previously selected port by name; if it is gone (or nothing
/// was selected) the first port is selected, and nothing if there is none.
pub fn reselect_port(prev: Option<usize>, old_ports: &Vec<PortInfo>, new_ports: &Vec<PortInfo>) -> (r:
    Option<usize>)
    ensures
        r is None <==> new_ports@.len() == 0,
        r matches Some(j) ==> j < new_ports@.len(),
        match selected_port_name(prev, old_ports@) {
            Some(name) => if has_port_named(new_ports@, name) {
                r matches Some(j) && is_first_named(new_ports@, name, j as int)
            } else {
                r == (if new_ports@.len() == 0 {
                    None::<usize>
                } else {
                    Some(0usize)
                })
            },
            None => r == (if new_ports@.len() == 0 {
                None::<usize>
            } else {
                Some(0usize)
            }),
        },
{
    let fallback = if new_ports.len() == 0 {
        None
    } else {
        Some(0)
    };
    match prev {
        Some(i) => {
            if i < old_ports.len() {
                let name = &old_ports[i].name;
                let n = new_ports.len();
                let mut j: usize = 0;
                while j < n
                    invariant
                        n == new_ports@.len(),
                        0 <= j <= n,
                        prev == Some(i),
                        i < old_ports@.len(),
                        name@ == old_ports@[i as int].name@,
                        forall|k: int| 0 <= k < j ==> new_ports@[k].name@ != name@,
                    decreases n - j,
                {
                    if new_ports[j].name == *name {
                        proof {
                            assert(new_ports@[j as int].name@ == name@);
                            assert(has_port_named(new_ports@, name@));
                        }
                        return Some(j);
                    }
                    j += 1;
                }
                fallback
            } else {
                fallback
            }
        },
        None => fallback,
    }
}

/// How a port is shown: its name, followed by its description in
/// parentheses when it has one.
pub open spec fn port_label(p: PortInfo) -> Seq<char> {
    if p.description@.len() == 0 {
        p.name@
    } else {
        p.name@ + "  ("@ + p.description@ + ")"@
    }
}

/// The label of a port in the port selector.
pub fn port_display_label(p: &PortInfo) -> (s: String)
    ensures
        s@ == port_label(*p),
        p.description@.len() == 0 ==> s@ == p.name@,
        p.description@.len() > 0 ==> s@ == p.name@ + "  ("@ + p.description@ + ")"@,
{
    if p.description.as_str().is_empty() {
        p.name.clone()
    } else {
        let mut s = p.name.clone();
        s.append("  (");
        s.append(p.description.as_str());
        s.append(")");
        s
    }
}

/// What the port selector shows when no port is selected.
pub open spec fn port_placeholder(scanning: bool, n_ports: int) -> Seq<char> {
    if scanning {
        "(scanning…)"@
    } else if n_ports == 0 {
        "(no ports)"@
    } else {
        "(select port)"@
    }
}

/// The text of the port selector: the selected port's label, or a
/// placeholder saying why none is selected.
pub fn port_selector_text(selected: Option<usize>, ports: &Vec<PortInfo>, scanning: bool) -> (s:
    String)
    ensures
        s@ == (match selected {
            Some(i) => if i < ports@.len() {
                port_label(ports@[i as int])
            } else {
                port_placeholder(scanning, ports@.len() as int)
            },
            None => port_placeholder(scanning, ports@.len() as int),
        }),
        selected is None || selected.unwrap() >= ports@.len() ==> {
            &&& scanning ==> s@ == "(scanning…)"@
            &&& !scanning && ports@.len() == 0 ==> s@ == "(no ports)"@
            &&& !scanning && ports@.len() > 0 ==> s@ == "(select port)"@
        },
        selected is Some && selected.unwrap() < ports@.len() ==> s@ == port_label(
            ports@[selected.unwrap() as int],
        ),
{
    if let Some(i) = selected {
        if i < ports.len() {
            return port_display_label(&ports[i]);
        }
    }
    if scanning {
        String::from_str("(scanning…)")
    } else if ports.len() == 0 {
        String::from_str("(no ports)")
    } else {
        String::from_str("(select port)")
    }
}

/// The sample rate in use: the configured one, or the default when zero.
pub fn effective_sample_rate(sample_rate: u32) -> (r: u32)
    ensures
        r == (if sample_rate == 0 {
            DEFAULT_SAMPLE_RATE
        } else {
            sample_rate
        }),
        r > 0,
{
    if sample_rate == 0 {
        DEFAULT_SAMPLE_RATE
    } else {
        sample_rate
    }
}

/// Number of samples per channel kept in history at `rate` Hz.
pub fn history_capacity(rate: u32) -> (n: u64)
    ensures
        n == HISTORY_SECONDS * rate,
{
    HISTORY_SECONDS * rate as u64
}

/// File name of a recording started at timestamp `ts` ("DFSDM_{ts}.wav").
pub fn wav_file_name(ts: &str) -> (s: String)
    ensures
        s@ == "DFSDM_"@ + ts@ + ".wav"@,
{
    let mut s = String::from_str("DFSDM_");
    s.append(ts);
    s.append(".wav");
    s
}


/// Selector text law: with no valid selection the selector says
/// "(scanning…)" whenever a scan is running, however many ports are known;
/// "(no ports)" only when no scan is running and no port is known; and
/// "(select port)" when ports are known but none is chosen.  A port is shown
/// by its name, followed by its description in parentheses when it has one.
pub proof fn lemma_port_texts(p: PortInfo, scanning: bool, n_ports: int)
    ensures
        scanning ==> port_placeholder(scanning, n_ports) == "(scanning…)"@,
        !scanning && n_ports == 0 ==> port_placeholder(scanning, n_ports) == "(no ports)"@,
        !scanning && n_ports > 0 ==> port_placeholder(scanning, n_ports) == "(select port)"@,
        p.description@.len() == 0 ==> port_label(p) == p.name@,
        p.description@.len() > 0 ==> port_label(p) == p.name@ + "  ("@ + p.description@ + ")"@,
{
}

/// Selection law: the previously selected port is known by its name exactly
/// when the previous index is inside the old list; a port is the one
/// reselected exactly when it is the first of the new list with that name.
pub proof fn lemma_selection_terms(
    prev: Option<usize>,
    old_ports: Seq<PortInfo>,
    new_ports: Seq<PortInfo>,
    name: Seq<char>,
    j: int,
)
    ensures
        prev is Some && prev.unwrap() < old_ports.len() ==> selected_port_name(prev, old_ports)
            == Some(old_ports[prev.unwrap() as int].name@),
        prev is None || prev.unwrap() >= old_ports.len() ==> selected_port_name(prev, old_ports)
            is None,
        is_first_named(new_ports, name, j) <==> (0 <= j < new_ports.len()
            && new_ports[j].name@ == name && forall|k: int|
            0 <= k < j ==> new_ports[k].name@ != name),
        has_port_named(new_ports, name) <==> exists|k: int|
            0 <= k < new_ports.len() && new_ports[k].name@ == name,
{
}

} // verus!
