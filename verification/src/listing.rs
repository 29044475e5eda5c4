//! What the listing and the inspection of collections print: the table of
//! collections (which one is active, each collection's label and its strategy, in
//! aligned columns), and a collection's settings with the state of its profiles.
use vstd::prelude::*;
use vstd::utf8::encode_utf8;

use crate::asset_refs::strings_view;
use crate::config::{apply_mode_name, strategy_name, CollectionConfig, ScheduleSlot};
use crate::interactive::{decimal_text, two_digits};
use crate::text::{append_chars, append_str, chars_of, str_eq, string_of};

verus! {

/// `s` padded on the right with `fill` to `width` characters, as `{:<width$}` pads.
pub open spec fn pad_right(s: Seq<char>, width: nat, fill: char) -> Seq<char> {
    if s.len() >= width {
        s
    } else {
        s + Seq::new((width - s.len()) as nat, |_i: int| fill)
    }
}

/// How a collection is labelled in the table: its title, then its name in brackets.
pub open spec fn list_label(c: CollectionConfig) -> Seq<char> {
    c.title@ + " ("@ + c.name@ + ")"@
}

/// The largest of `least` and the numbers in `lens`.
pub open spec fn widest(lens: Seq<nat>, least: nat) -> nat
    decreases lens.len(),
{
    if lens.len() == 0 {
        least
    } else {
        let w = widest(lens.drop_last(), least);
        if lens.last() > w {
            lens.last()
        } else {
            w
        }
    }
}

/// The width of the collection column: the widest label or heading, in UTF-8 bytes.
pub open spec fn label_width(cs: Seq<CollectionConfig>) -> nat {
    widest(cs.map_values(|c: CollectionConfig| encode_utf8(list_label(c)).len()), 10)
}

/// The width of the strategy column: the widest strategy name or heading, in UTF-8 bytes.
pub open spec fn strategy_width(cs: Seq<CollectionConfig>) -> nat {
    widest(cs.map_values(|c: CollectionConfig| encode_utf8(strategy_name(c.strategy)).len()), 8)
}

/// One line of the table: the three cells, each padded to its column's width.
pub open spec fn table_row(
    active: Seq<char>,
    label: Seq<char>,
    strategy: Seq<char>,
    label_w: nat,
    strategy_w: nat,
    fill: char,
) -> Seq<char> {
    pad_right(active, 6, fill) + " | "@ + pad_right(label, label_w, fill) + " | "@ + pad_right(
        strategy,
        strategy_w,
        fill,
    )
}

/// Whether the collection is the active one.
pub open spec fn is_active(active: Option<Seq<char>>, c: CollectionConfig) -> bool {
    active == Some(c.name@)
}

/// The lines that list the collections: a line saying there are none, or a heading,
/// a rule, and one row per collection in the order given, marking the active one.
pub open spec fn list_lines_spec(cs: Seq<CollectionConfig>, active: Option<Seq<char>>) -> Seq<Seq<char>> {
    if cs.len() == 0 {
        seq!["No collections found."@]
    } else {
        let lw = label_width(cs);
        let sw = strategy_width(cs);
        seq![
            table_row("ACTIVE"@, "COLLECTION"@, "STRATEGY"@, lw, sw, ' '),
            table_row(""@, ""@, ""@, lw, sw, '-'),
        ] + cs.map_values(
            |c: CollectionConfig|
                table_row(
                    if is_active(active, c) {
                        "yes"@
                    } else {
                        ""@
                    },
                    list_label(c),
                    strategy_name(c.strategy),
                    lw,
                    sw,
                    ' ',
                ),
        )
    }
}

fn padded(out: &mut Vec<char>, s: &str, width: usize, fill: char)
    ensures
        final(out)@ == old(out)@ + pad_right(s@, width as nat, fill),
{
    let ghost start = out@;
    let cs = chars_of(s);
    let mut k: usize = cs.len();
    append_str(out, s);
    while k < width
        invariant
            cs@ == s@,
            s@.len() <= k,
            k == s@.len() || k <= width,
            out@ == start + s@ + Seq::new((k - s@.len()) as nat, |_i: int| fill),
        decreases width - k,
    {
        out.push(fill);
        k += 1;
        assert(out@ =~= start + s@ + Seq::new((k - s@.len()) as nat, |_i: int| fill));
    }
    proof {
        if s@.len() >= width {
            assert(out@ =~= start + s@);
        }
    }
}

fn row(active: &str, label: &str, strategy: &str, label_w: usize, strategy_w: usize, fill: char) -> (r: String)
    ensures
        r@ == table_row(active@, label@, strategy@, label_w as nat, strategy_w as nat, fill),
{
    let mut out: Vec<char> = Vec::new();
    padded(&mut out, active, 6, fill);
    append_str(&mut out, " | ");
    padded(&mut out, label, label_w, fill);
    append_str(&mut out, " | ");
    padded(&mut out, strategy, strategy_w, fill);
    proof {
        assert(out@ =~= table_row(active@, label@, strategy@, label_w as nat, strategy_w as nat, fill));
    }
    string_of(out.as_slice())
}

fn label_of(c: &CollectionConfig) -> (r: String)
    ensures
        r@ == list_label(*c),
{
    let mut out = chars_of(c.title.as_str());
    append_str(&mut out, " (");
    append_str(&mut out, c.name.as_str());
    append_str(&mut out, ")");
    string_of(out.as_slice())
}

proof fn lemma_widest_step(lens: Seq<nat>, i: int, least: nat)
    requires
        0 <= i < lens.len(),
    ensures
        widest(lens.subrange(0, i + 1), least) == if lens[i] > widest(lens.subrange(0, i), least) {
            lens[i]
        } else {
            widest(lens.subrange(0, i), least)
        },
{
    assert(lens.subrange(0, i + 1).drop_last() =~= lens.subrange(0, i));
}

/// The lines that list the collections (see [`list_lines_spec`]); `active` names the
/// active collection, if one is.
pub fn list_lines(collections: &Vec<CollectionConfig>, active: Option<&str>) -> (r: Vec<String>)
    ensures
        r@.map_values(|s: String| s@) == list_lines_spec(
            collections@,
            match active {
                Some(a) => Some(a@),
                None => None,
            },
        ),
{
    let ghost act = match active {
        Some(a) => Some(a@),
        None => None::<Seq<char>>,
    };
    let mut out: Vec<String> = Vec::new();
    if collections.len() == 0 {
        out.push(string_of(chars_of("No collections found.").as_slice()));
        proof {
            assert(out@.map_values(|s: String| s@) =~= list_lines_spec(collections@, act));
        }
        return out;
    }
    let ghost llens = collections@.map_values(|c: CollectionConfig| encode_utf8(list_label(c)).len());
    let ghost slens = collections@.map_values(|c: CollectionConfig| encode_utf8(strategy_name(c.strategy)).len());
    let mut labels: Vec<String> = Vec::new();
    let mut lw: usize = 10;
    let mut sw: usize = 8;
    let mut i: usize = 0;
    while i < collections.len()
        invariant
            i <= collections@.len(),
            labels@.len() == i,
            forall|k: int| 0 <= k < i ==> (#[trigger] labels@[k])@ == list_label(collections@[k]),
            llens == collections@.map_values(|c: CollectionConfig| encode_utf8(list_label(c)).len()),
            slens == collections@.map_values(|c: CollectionConfig| encode_utf8(strategy_name(c.strategy)).len()),
            lw as nat == widest(llens.subrange(0, i as int), 10),
            sw as nat == widest(slens.subrange(0, i as int), 8),
        decreases collections.len() - i,
    {
        let label = label_of(&collections[i]);
        let n = label.as_str().as_bytes().len();
        let m = collections[i].strategy.as_str().as_bytes().len();
        proof {
            lemma_widest_step(llens, i as int, 10);
            lemma_widest_step(slens, i as int, 8);
        }
        if n > lw {
            lw = n;
        }
        if m > sw {
            sw = m;
        }
        labels.push(label);
        i += 1;
    }
    proof {
        assert(llens.subrange(0, collections@.len() as int) =~= llens);
        assert(slens.subrange(0, collections@.len() as int) =~= slens);
    }
    out.push(row("ACTIVE", "COLLECTION", "STRATEGY", lw, sw, ' '));
    out.push(row("", "", "", lw, sw, '-'));
    let mut j: usize = 0;
    while j < collections.len()
        invariant
            j <= collections@.len(),
            labels@.len() == collections@.len(),
            forall|k: int| 0 <= k < collections@.len() ==> (#[trigger] labels@[k])@ == list_label(collections@[k]),
            lw as nat == label_width(collections@),
            sw as nat == strategy_width(collections@),
            act == match active {
                Some(a) => Some(a@),
                None => None::<Seq<char>>,
            },
            out@.len() == 2 + j,
            out@.map_values(|s: String| s@) =~= list_lines_spec(collections@, act).subrange(0, 2 + j as int),
        decreases collections.len() - j,
    {
        let c = &collections[j];
        let on = match active {
            Some(a) => str_eq(a, c.name.as_str()),
            None => false,
        };
        let line = row(if on { "yes" } else { "" }, labels[j].as_str(), c.strategy.as_str(), lw, sw, ' ');
        out.push(line);
        j += 1;
    }
    out
}

// ---------------------------------------------------------------------------
// Inspecting a collection
// ---------------------------------------------------------------------------
/// How a profile of the inspected collection fared.
pub enum InspectStatus {
    /// It loaded: its provider, and why its files are not in order, if they are not.
    Loaded { provider: String, asset_issue: Option<String> },
    /// It could not be loaded, for the reason given.
    Invalid { message: String },
}

/// A profile of the inspected collection and how it fared.
pub struct InspectedProfile {
    pub name: String,
    pub status: InspectStatus,
}

/// The line of a schedule slot: two-digit hour, `:00` and the profile.
pub open spec fn slot_line(s: ScheduleSlot) -> Seq<char> {
    "  "@ + two_digits(s.hour) + ":00 "@ + s.profile@
}

/// The settings of a collection, one line each; the default profile when it has one,
/// the schedule when it has slots.
pub open spec fn inspect_head_spec(c: CollectionConfig) -> Seq<Seq<char>> {
    seq![
        "Name: "@ + c.name@,
        "Title: "@ + c.title@,
        "Strategy: "@ + strategy_name(c.strategy),
        "Apply mode: "@ + apply_mode_name(c.apply_mode),
    ] + match c.default_profile {
        Some(d) => seq!["Default profile: "@ + d@],
        None => Seq::empty(),
    } + if c.slots@.len() > 0 {
        seq!["Schedule:"@] + c.slots@.map_values(|s: ScheduleSlot| slot_line(s))
    } else {
        Seq::empty()
    }
}

/// The lines of one profile: its name padded to 16 characters with its provider and
/// whether its files are in order, or `invalid`; then the problem, indented, if any.
pub open spec fn profile_lines(p: InspectedProfile) -> Seq<Seq<char>> {
    match p.status {
        InspectStatus::Loaded { provider, asset_issue } => seq![
            "  "@ + pad_right(p.name@, 16, ' ') + " provider="@ + provider@ + " assets="@ + if asset_issue
                is None {
                "ok"@
            } else {
                "missing"@
            },
        ] + match asset_issue {
            Some(m) => seq!["    "@ + m@],
            None => Seq::empty(),
        },
        InspectStatus::Invalid { message } => seq![
            "  "@ + pad_right(p.name@, 16, ' ') + " invalid"@,
            "    "@ + message@,
        ],
    }
}

/// The lines of the profiles, in order.
pub open spec fn all_profile_lines(ps: Seq<InspectedProfile>) -> Seq<Seq<char>>
    decreases ps.len(),
{
    if ps.len() == 0 {
        Seq::empty()
    } else {
        all_profile_lines(ps.drop_last()) + profile_lines(ps.last())
    }
}

/// What inspecting a collection prints: its settings, then `Profiles:` and the lines of
/// each profile.
pub open spec fn inspect_lines_spec(c: CollectionConfig, ps: Seq<InspectedProfile>) -> Seq<Seq<char>> {
    inspect_head_spec(c) + seq!["Profiles:"@] + all_profile_lines(ps)
}

fn push_line(out: &mut Vec<String>, line: Vec<char>)
    ensures
        strings_view(final(out)@) == strings_view(old(out)@).push(line@),
{
    out.push(string_of(line.as_slice()));
    assert(strings_view(out@) =~= strings_view(old(out)@).push(line@));
}

fn joined(a: &str, b: &str) -> (r: Vec<char>)
    ensures
        r@ == a@ + b@,
{
    let mut v = chars_of(a);
    append_str(&mut v, b);
    v
}

fn push_profile_lines(out: &mut Vec<String>, p: &InspectedProfile)
    ensures
        strings_view(final(out)@) == strings_view(old(out)@) + profile_lines(*p),
{
    let ghost start = strings_view(out@);
    let mut first = chars_of("  ");
    padded(&mut first, p.name.as_str(), 16, ' ');
    match &p.status {
        InspectStatus::Loaded { provider, asset_issue } => {
            append_str(&mut first, " provider=");
            append_str(&mut first, provider.as_str());
            append_str(&mut first, " assets=");
            match asset_issue {
                None => append_str(&mut first, "ok"),
                Some(_) => append_str(&mut first, "missing"),
            }
            push_line(out, first);
            match asset_issue {
                Some(m) => push_line(out, joined("    ", m.as_str())),
                None => {},
            }
        },
        InspectStatus::Invalid { message } => {
            append_str(&mut first, " invalid");
            push_line(out, first);
            push_line(out, joined("    ", message.as_str()));
        },
    }
    assert(strings_view(out@) =~= start + profile_lines(*p));
}

/// What inspecting a collection prints (see [`inspect_lines_spec`]); `profiles` are the
/// profiles the collection lists, in order, with how each fared.
pub fn inspect_lines(config: &CollectionConfig, profiles: &Vec<InspectedProfile>) -> (r: Vec<String>)
    ensures
        strings_view(r@) == inspect_lines_spec(*config, profiles@),
{
    let mut out: Vec<String> = Vec::new();
    push_line(&mut out, joined("Name: ", config.name.as_str()));
    push_line(&mut out, joined("Title: ", config.title.as_str()));
    push_line(&mut out, joined("Strategy: ", config.strategy.as_str()));
    push_line(&mut out, joined("Apply mode: ", config.apply_mode.as_str()));
    match &config.default_profile {
        Some(d) => push_line(&mut out, joined("Default profile: ", d.as_str())),
        None => {},
    }
    let ghost before_slots = strings_view(out@);
    if config.slots.len() > 0 {
        push_line(&mut out, chars_of("Schedule:"));
        let ghost base = strings_view(out@);
        let mut i: usize = 0;
        while i < config.slots.len()
            invariant
                i <= config.slots@.len(),
                strings_view(out@) == base + config.slots@.subrange(0, i as int).map_values(
                    |s: ScheduleSlot| slot_line(s),
                ),
            decreases config.slots.len() - i,
        {
            let slot = &config.slots[i];
            let mut line = chars_of("  ");
            if slot.hour < 10 {
                append_str(&mut line, "0");
            }
            append_chars(&mut line, &decimal_text(slot.hour as usize));
            append_str(&mut line, ":00 ");
            append_str(&mut line, slot.profile.as_str());
            proof {
                reveal_strlit("0");
                assert(line@ =~= slot_line(config.slots@[i as int]));
            }
            push_line(&mut out, line);
            assert(config.slots@.subrange(0, i + 1).map_values(|s: ScheduleSlot| slot_line(s)) =~= config.slots@.subrange(
                0,
                i as int,
            ).map_values(|s: ScheduleSlot| slot_line(s)).push(slot_line(config.slots@[i as int])));
            i += 1;
        }
        assert(config.slots@.subrange(0, config.slots@.len() as int) =~= config.slots@);
    }
    assert(strings_view(out@) =~= inspect_head_spec(*config));
    push_line(&mut out, chars_of("Profiles:"));
    let ghost head = strings_view(out@);
    let mut j: usize = 0;
    while j < profiles.len()
        invariant
            j <= profiles@.len(),
            strings_view(out@) == head + all_profile_lines(profiles@.subrange(0, j as int)),
        decreases profiles.len() - j,
    {
        push_profile_lines(&mut out, &profiles[j]);
        assert(profiles@.subrange(0, j + 1).drop_last() =~= profiles@.subrange(0, j as int));
        j += 1;
    }
    assert(profiles@.subrange(0, profiles@.len() as int) =~= profiles@);
    out
}

} // verus!
