//! What the equaliser is for: five bands, each of which follows its own settings on both channels,
//! behind one switch.

use vstd::prelude::*;

use crate::laws::filters::largest_block;
use crate::laws::{has_played, on_at, was_cleared, was_told};
use crate::param::{ParamChange, ParamId};
use crate::prepare::PrepareContext;
use crate::sample::Sample;
use crate::stage::{runs, BoxedStage, StagePrep};
use crate::stages::eq::{EqBands, EqIds, EqPrep, EqSettings, EqStage};
use crate::stages::filter::{briefing, FilterKind, FilterQ, FilterTarget};

verus! {

/// The ids of the stage: its switch, and those of the bands' settings.
pub open spec fn all_ids(ids: EqIds) -> Seq<ParamId> {
    seq![
        ids.enabled,
        ids.low_shelf_freq_hz,
        ids.low_shelf_gain_db,
        ids.mid_freq_hz,
        ids.mid_gain_db,
        ids.mid_q,
        ids.high_shelf_freq_hz,
        ids.high_shelf_gain_db,
        ids.high_pass_enabled,
        ids.high_pass_freq_hz,
        ids.low_pass_enabled,
        ids.low_pass_freq_hz,
    ]
}

/// No id does the work of two.
pub open spec fn distinct(ids: EqIds) -> bool {
    forall|i: int, j: int|
        0 <= i < j < all_ids(ids).len() ==> all_ids(ids)[i] != all_ids(ids)[j]
}

/// Whether exactly these fields of two settings may differ: those of one band, or the switch.
pub open spec fn others_kept(before: EqSettings, after: EqSettings, touched: int) -> bool {
    &&& touched == -1 || after.enabled == before.enabled
    &&& touched == 0 || after.high_pass_enabled == before.high_pass_enabled
        && after.high_pass_freq_hz == before.high_pass_freq_hz
    &&& touched == 1 || after.low_shelf_freq_hz == before.low_shelf_freq_hz
        && after.low_shelf_gain_db == before.low_shelf_gain_db
    &&& touched == 2 || after.mid_freq_hz == before.mid_freq_hz && after.mid_gain_db
        == before.mid_gain_db && after.mid_q == before.mid_q
    &&& touched == 3 || after.high_shelf_freq_hz == before.high_shelf_freq_hz
        && after.high_shelf_gain_db == before.high_shelf_gain_db
    &&& touched == 4 || after.low_pass_enabled == before.low_pass_enabled
        && after.low_pass_freq_hz == before.low_pass_freq_hz
}

/// What one update does to the settings: the field it is for takes its value, whether the stage is
/// switched on or off, and all other fields stay. `touched` is the band it belongs to, or -1 for
/// the stage's own switch.
pub open spec fn taken_over(
    ids: EqIds,
    before: EqSettings,
    change: ParamChange,
    after: EqSettings,
    touched: int,
) -> bool {
    let v = change.value;
    &&& others_kept(before, after, touched)
    &&& change.id == ids.enabled ==> touched == -1 && after.enabled == on_at(v)
    &&& change.id == ids.high_pass_enabled ==> touched == 0 && after.high_pass_enabled == on_at(v)
        && after.high_pass_freq_hz == before.high_pass_freq_hz
    &&& change.id == ids.high_pass_freq_hz ==> touched == 0 && after.high_pass_freq_hz == v
        && after.high_pass_enabled == before.high_pass_enabled
    &&& change.id == ids.low_shelf_freq_hz ==> touched == 1 && after.low_shelf_freq_hz == v
        && after.low_shelf_gain_db == before.low_shelf_gain_db
    &&& change.id == ids.low_shelf_gain_db ==> touched == 1 && after.low_shelf_gain_db == v
        && after.low_shelf_freq_hz == before.low_shelf_freq_hz
    &&& change.id == ids.mid_freq_hz ==> touched == 2 && after.mid_freq_hz == v
        && after.mid_gain_db == before.mid_gain_db && after.mid_q == before.mid_q
    &&& change.id == ids.mid_gain_db ==> touched == 2 && after.mid_gain_db == v
        && after.mid_freq_hz == before.mid_freq_hz && after.mid_q == before.mid_q
    &&& change.id == ids.mid_q ==> touched == 2 && after.mid_q == v && after.mid_freq_hz
        == before.mid_freq_hz && after.mid_gain_db == before.mid_gain_db
    &&& change.id == ids.high_shelf_freq_hz ==> touched == 3 && after.high_shelf_freq_hz == v
        && after.high_shelf_gain_db == before.high_shelf_gain_db
    &&& change.id == ids.high_shelf_gain_db ==> touched == 3 && after.high_shelf_gain_db == v
        && after.high_shelf_freq_hz == before.high_shelf_freq_hz
    &&& change.id == ids.low_pass_enabled ==> touched == 4 && after.low_pass_enabled == on_at(v)
        && after.low_pass_freq_hz == before.low_pass_freq_hz
    &&& change.id == ids.low_pass_freq_hz ==> touched == 4 && after.low_pass_freq_hz == v
        && after.low_pass_enabled == before.low_pass_enabled
}

/// What a band is to become: nothing while the stage is switched off, and otherwise what its own
/// settings call for.
pub open spec fn shape_of(settings: EqSettings, band: int) -> FilterTarget {
    if !settings.enabled || (band == 0 && !settings.high_pass_enabled) || (band == 4
        && !settings.low_pass_enabled) {
        FilterTarget::Identity
    } else if band == 0 {
        FilterTarget::Design {
            kind: FilterKind::HighPass,
            freq_hz: settings.high_pass_freq_hz,
            q: FilterQ::Butterworth,
            gain_db: Sample { bits: 0 },
        }
    } else if band == 1 {
        FilterTarget::Design {
            kind: FilterKind::LowShelf,
            freq_hz: settings.low_shelf_freq_hz,
            q: FilterQ::UnitSlope,
            gain_db: settings.low_shelf_gain_db,
        }
    } else if band == 2 {
        FilterTarget::Design {
            kind: FilterKind::Peaking,
            freq_hz: settings.mid_freq_hz,
            q: FilterQ::Given(settings.mid_q),
            gain_db: settings.mid_gain_db,
        }
    } else if band == 3 {
        FilterTarget::Design {
            kind: FilterKind::HighShelf,
            freq_hz: settings.high_shelf_freq_hz,
            q: FilterQ::UnitSlope,
            gain_db: settings.high_shelf_gain_db,
        }
    } else {
        FilterTarget::Design {
            kind: FilterKind::LowPass,
            freq_hz: settings.low_pass_freq_hz,
            q: FilterQ::Butterworth,
            gain_db: Sample { bits: 0 },
        }
    }
}

/// The filters of one channel, in the order in which a signal passes them.
pub open spec fn in_order(bands: EqBands) -> Seq<BoxedStage> {
    seq![bands.high_pass, bands.low_shelf, bands.mid, bands.high_shelf, bands.low_pass]
}

/// Every band is to become what its own settings call for, and has no effect while the stage is
/// switched off.
pub proof fn every_band_follows_its_own_settings(settings: EqSettings, band: usize)
    requires
        band < 5,
    ensures
        settings.target(band) == shape_of(settings, band as int),
{
}

/// Whether the filters of one channel have been told to become what `settings` call for, in the
/// bands that `moved` names, and the others left alone.
pub open spec fn told_to_follow(
    stage: EqStage,
    settings: EqSettings,
    before: EqBands,
    after: EqBands,
    touched: int,
) -> bool {
    forall|band: int|
        0 <= band < 5 ==> if touched == band || touched == -1 {
            was_told(
                in_order(before)[band],
                briefing(stage.port, shape_of(settings, band), largest_block(stage.prepared_for)),
                #[trigger] in_order(after)[band],
            )
        } else {
            in_order(after)[band] == in_order(before)[band]
        }
}

/// The band a parameter belongs to, or -1 for the stage's own switch.
pub open spec fn band_of(ids: EqIds, id: ParamId) -> int {
    if id == ids.enabled {
        -1
    } else if id == ids.high_pass_enabled || id == ids.high_pass_freq_hz {
        0
    } else if id == ids.low_shelf_freq_hz || id == ids.low_shelf_gain_db {
        1
    } else if id == ids.mid_freq_hz || id == ids.mid_gain_db || id == ids.mid_q {
        2
    } else if id == ids.high_shelf_freq_hz || id == ids.high_shelf_gain_db {
        3
    } else if id == ids.low_pass_enabled || id == ids.low_pass_freq_hz {
        4
    } else {
        5
    }
}

/// Every one of the stage's parameters sets what it is for, whether the stage is switched on or
/// off, and the filters it moves are told what to become, on both channels alike. Anything else is
/// ignored.
pub proof fn every_parameter_sets_what_it_is_for(
    stage: EqStage,
    change: ParamChange,
    after: EqStage,
)
    requires
        distinct(stage.ids),
        stage.applies(change, after),
    ensures
        taken_over(
            stage.ids,
            stage.settings,
            change,
            after.settings,
            band_of(stage.ids, change.id),
        ),
        told_to_follow(
            stage,
            after.settings,
            stage.first,
            after.first,
            band_of(stage.ids, change.id),
        ),
        told_to_follow(
            stage,
            after.settings,
            stage.second,
            after.second,
            band_of(stage.ids, change.id),
        ),
        after.ids == stage.ids,
        after.port == stage.port,
        after.prepared_for == stage.prepared_for,
        !all_ids(stage.ids).contains(change.id) ==> after == stage,
{
    let ids = stage.ids;
    lemma_ids_are_apart(ids);
    let touched = band_of(ids, change.id);
    let all = all_ids(ids);
    assert(all[0] == ids.enabled && all[1] == ids.low_shelf_freq_hz && all[2]
        == ids.low_shelf_gain_db && all[3] == ids.mid_freq_hz && all[4] == ids.mid_gain_db
        && all[5] == ids.mid_q && all[6] == ids.high_shelf_freq_hz && all[7]
        == ids.high_shelf_gain_db && all[8] == ids.high_pass_enabled && all[9]
        == ids.high_pass_freq_hz && all[10] == ids.low_pass_enabled && all[11]
        == ids.low_pass_freq_hz);
    assert forall|band: int| 0 <= band < 5 implies if touched == band || touched == -1 {
        was_told(
            in_order(stage.first)[band],
            briefing(stage.port, shape_of(after.settings, band), largest_block(stage.prepared_for)),
            #[trigger] in_order(after.first)[band],
        )
    } else {
        in_order(after.first)[band] == in_order(stage.first)[band]
    } by {
        every_band_follows_its_own_settings(after.settings, band as usize);
        assert(after.first.band(band as usize) == in_order(after.first)[band]);
    }
    assert forall|band: int| 0 <= band < 5 implies if touched == band || touched == -1 {
        was_told(
            in_order(stage.second)[band],
            briefing(stage.port, shape_of(after.settings, band), largest_block(stage.prepared_for)),
            #[trigger] in_order(after.second)[band],
        )
    } else {
        in_order(after.second)[band] == in_order(stage.second)[band]
    } by {
        every_band_follows_its_own_settings(after.settings, band as usize);
        assert(after.second.band(band as usize) == in_order(after.second)[band]);
    }
    if !all.contains(change.id) {
        let (a, b) = (stage.first, after.first);
        assert(in_order(a)[0] == a.high_pass && in_order(b)[0] == b.high_pass);
        assert(in_order(a)[1] == a.low_shelf && in_order(b)[1] == b.low_shelf);
        assert(in_order(a)[2] == a.mid && in_order(b)[2] == b.mid);
        assert(in_order(a)[3] == a.high_shelf && in_order(b)[3] == b.high_shelf);
        assert(in_order(a)[4] == a.low_pass && in_order(b)[4] == b.low_pass);
        let (c, d) = (stage.second, after.second);
        assert(in_order(c)[0] == c.high_pass && in_order(d)[0] == d.high_pass);
        assert(in_order(c)[1] == c.low_shelf && in_order(d)[1] == d.low_shelf);
        assert(in_order(c)[2] == c.mid && in_order(d)[2] == d.mid);
        assert(in_order(c)[3] == c.high_shelf && in_order(d)[3] == d.high_shelf);
        assert(in_order(c)[4] == c.low_pass && in_order(d)[4] == d.low_pass);
    }
}

/// Distinct ids, pair by pair.
proof fn lemma_ids_are_apart(ids: EqIds)
    requires
        distinct(ids),
    ensures
        ids.enabled != ids.low_shelf_freq_hz,
        forall|i: int, j: int|
            0 <= i < 12 && 0 <= j < 12 && i != j ==> #[trigger] all_ids(ids)[i]
                != #[trigger] all_ids(ids)[j],
{
    assert(all_ids(ids)[0] != all_ids(ids)[1]);
    assert forall|i: int, j: int| 0 <= i < 12 && 0 <= j < 12 && i != j implies #[trigger] all_ids(
        ids,
    )[i] != #[trigger] all_ids(ids)[j] by {
        if i < j {
            assert(all_ids(ids)[i] != all_ids(ids)[j]);
        } else {
            assert(all_ids(ids)[j] != all_ids(ids)[i]);
        }
    }
}

/// The settings alone follow in the same way.
pub proof fn the_settings_follow(settings: EqSettings, ids: EqIds, change: ParamChange, band: usize)
    requires
        distinct(ids),
        band < 5,
    ensures
        taken_over(
            ids,
            settings,
            change,
            settings.changed(ids, change).0,
            band_of(ids, change.id),
        ),
        settings.changed(ids, change).1.covers(band) <==> band_of(ids, change.id) == band
            || band_of(ids, change.id) == -1,
{
    lemma_ids_are_apart(ids);
    let all = all_ids(ids);
    assert(all[0] == ids.enabled && all[1] == ids.low_shelf_freq_hz && all[2]
        == ids.low_shelf_gain_db && all[3] == ids.mid_freq_hz && all[4] == ids.mid_gain_db
        && all[5] == ids.mid_q && all[6] == ids.high_shelf_freq_hz && all[7]
        == ids.high_shelf_gain_db && all[8] == ids.high_pass_enabled && all[9]
        == ids.high_pass_freq_hz && all[10] == ids.low_pass_enabled && all[11]
        == ids.low_pass_freq_hz);
}

/// What is set while the stage is off is in force once it is on again: switching on tells every
/// filter to become what its settings call for by then.
pub proof fn settings_made_while_off_count_when_on(
    off: EqStage,
    change: ParamChange,
    set: EqStage,
    on_value: Sample,
    on: EqStage,
    band: int,
)
    requires
        distinct(off.ids),
        !off.settings.enabled,
        change.id != off.ids.enabled,
        off.applies(change, set),
        on_at(on_value),
        set.applies(ParamChange { id: off.ids.enabled, value: on_value }, on),
        0 <= band < 5,
    ensures
        on.settings.enabled,
        taken_over(
            off.ids,
            off.settings,
            change,
            EqSettings { enabled: false, ..on.settings },
            band_of(off.ids, change.id),
        ),
        was_told(
            in_order(set.first)[band],
            briefing(off.port, shape_of(on.settings, band), largest_block(off.prepared_for)),
            in_order(on.first)[band],
        ),
        was_told(
            in_order(set.second)[band],
            briefing(off.port, shape_of(on.settings, band), largest_block(off.prepared_for)),
            in_order(on.second)[band],
        ),
{
    every_parameter_sets_what_it_is_for(off, change, set);
    every_parameter_sets_what_it_is_for(
        set,
        ParamChange { id: off.ids.enabled, value: on_value },
        on,
    );
}

/// Whether one channel's signal has passed its five filters, one after the other, each of them
/// once, in the order high-pass, low shelf, bell, high shelf, low-pass.
pub open spec fn has_passed(
    bands: EqBands,
    input: Seq<Sample>,
    signals: Seq<Seq<Sample>>,
    output: Seq<Sample>,
    after: EqBands,
) -> bool {
    &&& signals.len() == 6
    &&& signals[0] == input
    &&& signals[5] == output
    &&& forall|k: int|
        0 <= k < 5 ==> has_played(
            in_order(bands)[k],
            seq![signals[k]],
            seq![#[trigger] signals[k + 1]],
            in_order(after)[k],
        )
}

/// Each channel passes its own five filters, and the filters of a channel that is not there are
/// left alone. Processing changes no setting and tells no filter anything.
pub proof fn each_channel_passes_its_own_filters(
    stage: EqStage,
    input: Seq<Seq<Sample>>,
    output: Seq<Seq<Sample>>,
    after: EqStage,
)
    requires
        stage.plays(input, output, after),
    ensures
        output.len() == input.len(),
        after.settings == stage.settings,
        after.ids == stage.ids,
        after.port == stage.port,
        after.prepared_for == stage.prepared_for,
        exists|signals: Seq<Seq<Sample>>| #[trigger]
            has_passed(stage.first, input[0], signals, output[0], after.first),
        input.len() > 1 ==> exists|signals: Seq<Seq<Sample>>| #[trigger]
            has_passed(stage.second, input[1], signals, output[1], after.second),
        input.len() <= 1 ==> after.second == stage.second,
{
    lemma_has_passed(stage.first, input[0], output[0], after.first);
    if input.len() > 1 {
        lemma_has_passed(stage.second, input[1], output[1], after.second);
    }
}

/// One channel.
proof fn lemma_has_passed(
    bands: EqBands,
    input: Seq<Sample>,
    output: Seq<Sample>,
    after: EqBands,
)
    requires
        bands.pass(input, output, after),
    ensures
        exists|signals: Seq<Seq<Sample>>| #[trigger]
            has_passed(bands, input, signals, output, after),
{
    let (a, b, c, d) = choose|
        high_passed: Seq<Sample>,
        low_shelved: Seq<Sample>,
        belled: Seq<Sample>,
        high_shelved: Seq<Sample>,
    |
        {
            &&& #[trigger] runs(bands.high_pass, input, high_passed, after.high_pass)
            &&& #[trigger] runs(bands.low_shelf, high_passed, low_shelved, after.low_shelf)
            &&& #[trigger] runs(bands.mid, low_shelved, belled, after.mid)
            &&& #[trigger] runs(bands.high_shelf, belled, high_shelved, after.high_shelf)
            &&& runs(bands.low_pass, high_shelved, output, after.low_pass)
        };
    let signals = seq![input, a, b, c, d, output];
    assert forall|k: int| 0 <= k < 5 implies has_played(
        in_order(bands)[k],
        seq![signals[k]],
        seq![#[trigger] signals[k + 1]],
        in_order(after)[k],
    ) by {
        if k == 0 {
        } else if k == 1 {
        } else if k == 2 {
        } else if k == 3 {
        } else {
        }
    }
    assert(has_passed(bands, input, signals, output, after));
}

/// A reset clears all ten filters and nothing else.
pub proof fn a_reset_clears_every_filter(stage: EqStage, after: EqStage, band: int)
    requires
        stage.resets_to(after),
        0 <= band < 5,
    ensures
        was_cleared(in_order(stage.first)[band], in_order(after.first)[band]),
        was_cleared(in_order(stage.second)[band], in_order(after.second)[band]),
        after.settings == stage.settings,
        after.ids == stage.ids,
        after.port == stage.port,
        after.prepared_for == stage.prepared_for,
{
    assert(stage.first.band(band as usize) == in_order(stage.first)[band]);
    assert(after.first.band(band as usize) == in_order(after.first)[band]);
    assert(stage.second.band(band as usize) == in_order(stage.second)[band]);
    assert(after.second.band(band as usize) == in_order(after.second)[band]);
}

/// A prepared stage has the settings it was given, and all ten filters have been told to jump to
/// what these call for. It reports nothing.
pub proof fn a_prepared_equaliser_is_set(
    prep: EqPrep,
    ctx: PrepareContext,
    stage: EqStage,
    band: int,
)
    requires
        prep.prepares(ctx, stage),
        0 <= band < 5,
    ensures
        stage.settings == prep.defaults,
        stage.ids == prep.ids,
        stage.port == prep.port,
        stage.prepared_for == ctx,
        was_told(
            in_order(prep.first)[band],
            briefing(prep.port, shape_of(prep.defaults, band), 0),
            in_order(stage.first)[band],
        ),
        was_told(
            in_order(prep.second)[band],
            briefing(prep.port, shape_of(prep.defaults, band), 0),
            in_order(stage.second)[band],
        ),
        stage.readings().len() == 0,
{
    every_band_follows_its_own_settings(prep.defaults, band as usize);
    assert(prep.first.band(band as usize) == in_order(prep.first)[band]);
    assert(stage.first.band(band as usize) == in_order(stage.first)[band]);
    assert(prep.second.band(band as usize) == in_order(prep.second)[band]);
    assert(stage.second.band(band as usize) == in_order(stage.second)[band]);
}

} // verus!
