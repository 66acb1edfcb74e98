//! The station check: the record that a resolution produces, when to retry,
//! what changed against the station's previous state, the watchdog that
//! guards each check, and the favicon rules.

use vstd::prelude::*;
use vstd::string::StringExecFns;
use crate::resolver::has_found;
use crate::streamcheck::{outcomes_view, Outcome, OutcomeView, StreamInfoView};
use crate::text::{chars_of, decimal_text, push_decimal, starts_with};

verus! {

/// A directory entry with its last known check results.
pub struct StationItem {
    pub id: i32,
    pub uuid: String,
    pub name: String,
    pub url: String,
    pub homepage: String,
    pub favicon: String,
    pub bitrate: u32,
    pub codec: String,
    pub hls: bool,
    pub check_ok: bool,
}

/// The record of one check, as it is written to the store.
pub struct NewStationCheckItem {
    pub station_uuid: String,
    pub source: String,
    pub codec: String,
    pub bitrate: u32,
    pub hls: bool,
    pub check_ok: bool,
    pub url: String,
}

/// The first stream among the outcomes, if any.
pub open spec fn first_found(o: Seq<OutcomeView>) -> Option<StreamInfoView>
    decreases o.len(),
{
    if o.len() == 0 {
        None
    } else {
        match o[0] {
            OutcomeView::Found(s) => Some(s),
            OutcomeView::Failed(_, _) => first_found(o.drop_first()),
        }
    }
}

proof fn lemma_first_found_step(o: Seq<OutcomeView>, i: int)
    requires
        0 <= i < o.len(),
        forall|j: int| 0 <= j < i ==> !(#[trigger] o[j] is Found),
    ensures
        first_found(o) == first_found(o.subrange(i, o.len() as int)),
    decreases i,
{
    if i > 0 {
        assert(o.drop_first().subrange(i - 1, o.drop_first().len() as int) =~= o.subrange(i, o.len() as int));
        assert forall|j: int| 0 <= j < i - 1 implies !(#[trigger] o.drop_first()[j] is Found) by {
            assert(o.drop_first()[j] == o[j + 1]);
        }
        lemma_first_found_step(o.drop_first(), i - 1);
        assert(!(o[0] is Found));
    } else {
        assert(o.subrange(0, o.len() as int) =~= o);
    }
}

proof fn lemma_first_found_none(o: Seq<OutcomeView>)
    requires
        forall|j: int| 0 <= j < o.len() ==> !(#[trigger] o[j] is Found),
    ensures
        first_found(o) is None,
    decreases o.len(),
{
    if o.len() > 0 {
        assert forall|j: int| 0 <= j < o.len() - 1 implies !(#[trigger] o.drop_first()[j] is Found) by {
            assert(o.drop_first()[j] == o[j + 1]);
        }
        lemma_first_found_none(o.drop_first());
    }
}

/// The check record that a resolution gives: the first stream found makes
/// a passing check with its codec, bitrate, HLS flag and URL; without one
/// the check fails with an empty codec and bitrate 0.
pub open spec fn check_record_matches(
    r: NewStationCheckItem,
    station_uuid: Seq<char>,
    source: Seq<char>,
    o: Seq<OutcomeView>,
) -> bool {
    r.station_uuid@ == station_uuid && r.source@ == source && match first_found(o) {
        Some(s) => r.check_ok && r.codec@ == s.codec && r.bitrate == s.bitrate && r.hls == s.hls && r.url@
            == s.url,
        None => !r.check_ok && r.codec@ == Seq::<char>::empty() && r.bitrate == 0 && !r.hls && r.url@
            == Seq::<char>::empty(),
    }
}

/// Builds the check record of a station from the outcomes of resolving it.
pub fn build_check(station: &StationItem, source: &str, outcomes: &Vec<Outcome>) -> (r: NewStationCheckItem)
    ensures
        check_record_matches(r, station.uuid@, source@, outcomes_view(outcomes@)),
{
    let ghost o = outcomes_view(outcomes@);
    let mut i: usize = 0;
    while i < outcomes.len()
        invariant
            i <= outcomes@.len(),
            o == outcomes_view(outcomes@),
            forall|j: int| 0 <= j < i ==> !(#[trigger] o[j] is Found),
        decreases outcomes.len() - i,
    {
        if let Ok(info) = &outcomes[i] {
            proof {
                lemma_first_found_step(o, i as int);
                assert(o.subrange(i as int, o.len() as int)[0] == o[i as int]);
            }
            return NewStationCheckItem {
                station_uuid: station.uuid.clone(),
                source: source.to_string(),
                codec: info.codec.clone(),
                bitrate: info.bitrate,
                hls: info.hls,
                check_ok: true,
                url: info.url.clone(),
            };
        }
        i = i + 1;
    }
    proof {
        lemma_first_found_none(o);
    }
    NewStationCheckItem {
        station_uuid: station.uuid.clone(),
        source: source.to_string(),
        codec: String::new(),
        bitrate: 0,
        hls: false,
        check_ok: false,
        url: String::new(),
    }
}

/// Whether a resolution found any stream.
pub fn any_found(outcomes: &Vec<Outcome>) -> (r: bool)
    ensures
        r == has_found(outcomes_view(outcomes@)),
{
    let ghost o = outcomes_view(outcomes@);
    let mut i: usize = 0;
    while i < outcomes.len()
        invariant
            i <= outcomes@.len(),
            o == outcomes_view(outcomes@),
            forall|j: int| 0 <= j < i ==> !(#[trigger] o[j] is Found),
        decreases outcomes.len() - i,
    {
        if outcomes[i].is_ok() {
            assert(o[i as int] is Found);
            return true;
        }
        i = i + 1;
    }
    false
}

/// Whether another attempt is due after `attempts` attempts: none found a
/// stream, and fewer than `max_retries` retries have been made.
pub fn retry_needed(attempts: u32, max_retries: u32, outcomes: &Vec<Outcome>) -> (r: bool)
    requires
        attempts >= 1,
    ensures
        r == (!has_found(outcomes_view(outcomes@)) && attempts - 1 < max_retries),
{
    !any_found(outcomes) && attempts - 1 < max_retries
}

} // verus!

verus! {

/// What changed between a station's previous state and a new check.
pub struct StationChange {
    pub ok_before: bool,
    pub ok_after: bool,
    pub codec_changed: bool,
    pub bitrate_changed: bool,
    pub hls_changed: bool,
    pub favicon_changed: bool,
}

/// How a check turned out against the previous state.
#[derive(Clone, Copy, PartialEq, Eq, Debug, Structural)]
pub enum Tone {
    /// The station worked and now fails.
    Broken,
    /// The station failed and now works.
    Repaired,
    /// Pass or fail stayed as it was.
    Steady,
}

/// Compares a station's previous state with a new check and the favicon
/// that now stands for it.
pub fn detect_change(before: &StationItem, after: &NewStationCheckItem, favicon: &str) -> (r: StationChange)
    ensures
        r.ok_before == before.check_ok,
        r.ok_after == after.check_ok,
        r.codec_changed == (before.codec@ != after.codec@),
        r.bitrate_changed == (before.bitrate != after.bitrate),
        r.hls_changed == (before.hls != after.hls),
        r.favicon_changed == (before.favicon@ != favicon@),
{
    let fav = favicon.to_string();
    StationChange {
        ok_before: before.check_ok,
        ok_after: after.check_ok,
        codec_changed: !(before.codec == after.codec),
        bitrate_changed: before.bitrate != after.bitrate,
        hls_changed: before.hls != after.hls,
        favicon_changed: !(before.favicon == fav),
    }
}

pub open spec fn tone_of(ok_before: bool, ok_after: bool) -> Tone {
    if ok_before && !ok_after {
        Tone::Broken
    } else if !ok_before && ok_after {
        Tone::Repaired
    } else {
        Tone::Steady
    }
}

impl StationChange {
    pub fn tone(&self) -> (r: Tone)
        ensures
            r == tone_of(self.ok_before, self.ok_after),
    {
        if self.ok_before && !self.ok_after {
            Tone::Broken
        } else if !self.ok_before && self.ok_after {
            Tone::Repaired
        } else {
            Tone::Steady
        }
    }

    /// Whether pass or fail flipped.
    pub fn flipped(&self) -> (r: bool)
        ensures
            r == (self.ok_before != self.ok_after),
    {
        self.ok_before != self.ok_after
    }
}

pub open spec fn bool_text(b: bool) -> Seq<char> {
    if b {
        "true"@
    } else {
        "false"@
    }
}

/// One part of a change line: ` label before -> after`, or nothing when the
/// value stayed.
pub open spec fn change_part(changed: bool, label: Seq<char>, a: Seq<char>, b: Seq<char>) -> Seq<char> {
    if changed {
        " "@ + label + " "@ + a + " -> "@ + b
    } else {
        Seq::empty()
    }
}

/// The readable line for a check: the station, then each value that
/// changed with its old and new value.
pub open spec fn change_text(s: StationItem, c: NewStationCheckItem, ch: StationChange, favicon: Seq<char>) -> Seq<char> {
    s.name@ + " ("@ + s.uuid@ + "):"@
        + change_part(ch.ok_before != ch.ok_after, "check_ok"@, bool_text(ch.ok_before), bool_text(ch.ok_after))
        + change_part(ch.codec_changed, "codec"@, s.codec@, c.codec@)
        + change_part(ch.bitrate_changed, "bitrate"@, decimal_text(s.bitrate as nat), decimal_text(c.bitrate as nat))
        + change_part(ch.hls_changed, "hls"@, bool_text(s.hls), bool_text(c.hls))
        + change_part(ch.favicon_changed, "favicon"@, s.favicon@, favicon)
}

fn bool_str(b: bool) -> (r: &'static str)
    ensures
        r@ == bool_text(b),
{
    if b {
        "true"
    } else {
        "false"
    }
}

fn append_part(out: &mut String, changed: bool, label: &str, a: &str, b: &str)
    ensures
        final(out)@ == old(out)@ + change_part(changed, label@, a@, b@),
{
    if changed {
        out.append(" ");
        out.append(label);
        out.append(" ");
        out.append(a);
        out.append(" -> ");
        out.append(b);
        assert(out@ =~= old(out)@ + change_part(changed, label@, a@, b@));
    } else {
        assert(out@ =~= old(out)@ + change_part(changed, label@, a@, b@));
    }
}

fn decimal_string(n: u32) -> (r: String)
    ensures
        r@ == decimal_text(n as nat),
{
    let mut s = String::new();
    push_decimal(&mut s, n);
    assert(s@ =~= decimal_text(n as nat));
    s
}

/// The readable line for a check.
pub fn change_line(station: &StationItem, check: &NewStationCheckItem, change: &StationChange, favicon: &str) -> (r: String)
    ensures
        r@ == change_text(*station, *check, *change, favicon@),
{
    let mut out = station.name.clone();
    out.append(" (");
    out.append(station.uuid.as_str());
    out.append("):");
    append_part(&mut out, change.flipped(), "check_ok", bool_str(change.ok_before), bool_str(change.ok_after));
    append_part(&mut out, change.codec_changed, "codec", station.codec.as_str(), check.codec.as_str());
    append_part(
        &mut out,
        change.bitrate_changed,
        "bitrate",
        decimal_string(station.bitrate).as_str(),
        decimal_string(check.bitrate).as_str(),
    );
    append_part(&mut out, change.hls_changed, "hls", bool_str(station.hls), bool_str(check.hls));
    append_part(&mut out, change.favicon_changed, "favicon", station.favicon.as_str(), favicon);
    out
}

} // verus!

verus! {

/// A favicon answer is usable when it succeeded with an image content type.
pub open spec fn favicon_usable(success: bool, content_type: Option<Seq<char>>) -> bool {
    success && match content_type {
        Some(t) => t.len() >= 5 && t.subrange(0, 5) == "image"@,
        None => false,
    }
}

/// Whether a favicon URL answered with an image.
pub fn favicon_ok(success: bool, content_type: Option<&str>) -> (r: bool)
    ensures
        r == favicon_usable(success, match content_type {
            Some(t) => Some(t@),
            None => None,
        }),
{
    proof {
        reveal_strlit("image");
    }
    if !success {
        return false;
    }
    match content_type {
        Some(t) => starts_with(&chars_of(t), "image"),
        None => false,
    }
}

/// The favicon a station keeps: the old one if it is usable, else the first
/// icon found on the homepage, else none.
pub open spec fn favicon_choice(old: Seq<char>, old_ok: bool, icons: Option<Seq<Seq<char>>>) -> Seq<char> {
    if old_ok {
        old
    } else {
        match icons {
            Some(v) => if v.len() > 0 { v[0] } else { Seq::empty() },
            None => Seq::empty(),
        }
    }
}

pub fn choose_favicon(old: &str, old_ok: bool, icons: Option<Vec<String>>) -> (r: String)
    ensures
        r@ == favicon_choice(old@, old_ok, match icons {
            Some(v) => Some(crate::playlist::texts_view(v@)),
            None => None,
        }),
{
    if old_ok {
        return old.to_string();
    }
    match icons {
        Some(v) => if v.len() > 0 {
            v[0].clone()
        } else {
            String::new()
        },
        None => String::new(),
    }
}

} // verus!
