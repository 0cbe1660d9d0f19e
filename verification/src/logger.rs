//! The core's surface toward its rendering and persistence
//! collaborators: the bit-exact RGBA transfer of a state field, and the
//! plain records an ecosystem is exported to and rebuilt from. The core
//! does no file I/O itself; a loader hands these records in and is
//! guaranteed that a corrupt record is rejected whole, before any tick.

use vstd::prelude::*;

use crate::conv::{copy_cells, entries_in, grid_dims_ok};
use crate::fixed::SCALE;
use crate::lenia::{
    kernel_total, params_valid, Channel, ConfigError, CornerPolicy, Eco, Function, Layer,
    CHANNEL_LIMIT, LAYER_LIMIT, RADIUS_LIMIT,
};

verus! {

/// The color index of a cell value v in [0, SCALE]: floor of v * 255.
pub open spec fn pixel_col(v: int) -> int {
    v * 255 / (SCALE as int)
}

/// One color component: 255 - (col/4 - center)^2, clamped into [0, 255];
/// the centers 16, 32 and 48 give the red, green and blue ramps.
pub open spec fn pixel_component(col: int, center: int) -> int {
    let m = col / 4 - center;
    let v = 255 - m * m;
    if v < 0 {
        0
    } else if v > 255 {
        255
    } else {
        v
    }
}

/// Alpha: opaque exactly for a nonzero color index.
pub open spec fn pixel_alpha(col: int) -> int {
    if col > 0 {
        255
    } else {
        0
    }
}

/// Renders a state field as an RGBA pixel buffer, four bytes per cell in
/// row-major order, by the exact integer transfer above.
#[verifier::loop_isolation(false)]
pub fn image(matrix: &Vec<i64>, width: usize, height: usize) -> (r: ((usize, usize), Vec<u8>))
    requires
        grid_dims_ok(width as int, height as int),
        matrix@.len() == width * height,
        entries_in(matrix@, 0, SCALE as int),
    ensures
        r.0 == (width, height),
        r.1@.len() == 4 * matrix@.len(),
        forall|i: int| 0 <= i < matrix@.len() ==> {
            let col = pixel_col(#[trigger] matrix@[i] as int);
            &&& r.1@[4 * i] == pixel_component(col, 16)
            &&& r.1@[4 * i + 1] == pixel_component(col, 32)
            &&& r.1@[4 * i + 2] == pixel_component(col, 48)
            &&& r.1@[4 * i + 3] == pixel_alpha(col)
        },
{
    let len: usize = matrix.len();
    let mut buf: Vec<u8> = Vec::new();
    let mut i: usize = 0;
    while i < len
        invariant
            0 <= i <= len,
            buf@.len() == 4 * i,
            forall|j: int| 0 <= j < i ==> {
                let col = pixel_col(#[trigger] matrix@[j] as int);
                &&& buf@[4 * j] == pixel_component(col, 16)
                &&& buf@[4 * j + 1] == pixel_component(col, 32)
                &&& buf@[4 * j + 2] == pixel_component(col, 48)
                &&& buf@[4 * j + 3] == pixel_alpha(col)
            },
        decreases len - i,
    {
        let v: i64 = matrix[i];
        proof {
            assert(0 <= v * 255 <= 255_000_000) by (nonlinear_arith)
                requires 0 <= v <= 1_000_000;
            vstd::arithmetic::div_mod::lemma_div_pos_is_pos(v * 255, SCALE as int);
            vstd::arithmetic::div_mod::lemma_multiply_divide_le(v * 255, SCALE as int, 255);
            assert((SCALE as int) * 255 == 255_000_000) by (nonlinear_arith);
        }
        let col: i64 = v * 255 / SCALE;
        proof {
            vstd::arithmetic::div_mod::lemma_div_pos_is_pos(col as int, 4);
            vstd::arithmetic::div_mod::lemma_div_is_ordered(col as int, 255, 4);
        }
        let c4: i64 = col / 4;
        buf.push(component(c4, 16));
        buf.push(component(c4, 32));
        buf.push(component(c4, 48));
        if col > 0 {
            buf.push(255);
        } else {
            buf.push(0);
        }
        i = i + 1;
    }
    ((width, height), buf)
}

/// One color component from the quartered color index, exactly as
/// `pixel_component`.
fn component(c4: i64, center: i64) -> (r: u8)
    requires
        0 <= c4 <= 63,
        16 <= center <= 48,
    ensures
        r == ({
            let m = c4 - center;
            let v = 255 - m * m;
            if v < 0 {
                0
            } else if v > 255 {
                255
            } else {
                v
            }
        }),
{
    let m: i64 = c4 - center;
    proof {
        assert(0 <= m * m <= 4_096) by (nonlinear_arith)
            requires -48 <= m <= 63;
        vstd::arithmetic::div_mod::lemma_div_multiples_vanish(c4 as int, 4);
        assert((4 * (c4 as int)) / 4 == c4 as int);
        assert((c4 as int) * 4 == 4 * (c4 as int)) by (nonlinear_arith);
    }
    let v: i64 = 255 - m * m;
    if v < 0 {
        0
    } else {
        v as u8
    }
}

/// One layer of the persistent record: both profiles, the source channel
/// and the kernel radius.
#[derive(Debug)]
pub struct LayerRecord {
    pub kernel: Function,
    pub growth_map: Function,
    pub channel_id: usize,
    pub radius: usize,
}

/// The persistent form of an ecosystem: the scalar configuration and one
/// record per layer. The channels' state fields travel separately, one
/// flat row-major array each.
#[derive(Debug)]
pub struct EcoRecord {
    pub delta: i64,
    pub size: (usize, usize),
    pub cycles: usize,
    pub fitness: i64,
    pub layers: Vec<LayerRecord>,
}

/// What `from_record` accepts: the record round-trips into a ready
/// ecosystem exactly when this holds.
pub open spec fn record_valid(rec: EcoRecord, matrices: Seq<Vec<i64>>) -> bool {
    &&& 1 <= matrices.len() <= CHANNEL_LIMIT
    &&& rec.layers@.len() <= LAYER_LIMIT
    &&& 1 <= rec.delta <= SCALE
    &&& grid_dims_ok(rec.size.0 as int, rec.size.1 as int)
    &&& forall|c: int| 0 <= c < matrices.len() ==> {
        &&& (#[trigger] matrices[c])@.len() == rec.size.0 * rec.size.1
        &&& entries_in(matrices[c]@, 0, SCALE as int)
    }
    &&& forall|l: int| 0 <= l < rec.layers@.len() ==> {
        &&& params_valid((#[trigger] rec.layers@[l]).kernel.parameters@)
        &&& !rec.layers@[l].kernel.centering
        &&& params_valid(rec.layers@[l].growth_map.parameters@)
        &&& 1 <= rec.layers@[l].radius <= RADIUS_LIMIT
        &&& (rec.layers@[l].radius as int) < rec.size.0
        &&& (rec.layers@[l].radius as int) < rec.size.1
        &&& rec.layers@[l].channel_id < matrices.len()
        &&& 1 <= kernel_total(rec.layers@[l].kernel, rec.layers@[l].radius as int,
            CornerPolicy::NaturalDecay)
    }
}

/// Exports the pure data of an ecosystem: its record and one flat array
/// per channel.
#[verifier::loop_isolation(false)]
pub fn to_record(eco: &Eco) -> (r: (EcoRecord, Vec<Vec<i64>>))
    ensures
        r.0.delta == eco.delta,
        r.0.size == eco.size,
        r.0.cycles == eco.cycles,
        r.0.fitness == eco.fitness,
        r.0.layers@.len() == eco.layers@.len(),
        forall|l: int| 0 <= l < eco.layers@.len() ==> {
            let lr = #[trigger] r.0.layers@[l];
            &&& lr.kernel.shape == eco.layers@[l].kernel.shape
            &&& lr.kernel.centering == eco.layers@[l].kernel.centering
            &&& lr.kernel.parameters@ == eco.layers@[l].kernel.parameters@
            &&& lr.growth_map.shape == eco.layers@[l].growth_map.shape
            &&& lr.growth_map.centering == eco.layers@[l].growth_map.centering
            &&& lr.growth_map.parameters@ == eco.layers@[l].growth_map.parameters@
            &&& lr.channel_id == eco.layers@[l].channel_id
            &&& lr.radius == eco.layers@[l].radius
        },
        r.1@.len() == eco.channels@.len(),
        forall|c: int| 0 <= c < eco.channels@.len()
            ==> (#[trigger] r.1@[c])@ == eco.channels@[c].matrix@,
{
    let mut layers: Vec<LayerRecord> = Vec::new();
    let mut l: usize = 0;
    while l < eco.layers.len()
        invariant
            0 <= l <= eco.layers@.len(),
            layers@.len() == l,
            forall|j: int| 0 <= j < l ==> {
                let lr = #[trigger] layers@[j];
                &&& lr.kernel.shape == eco.layers@[j].kernel.shape
                &&& lr.kernel.centering == eco.layers@[j].kernel.centering
                &&& lr.kernel.parameters@ == eco.layers@[j].kernel.parameters@
                &&& lr.growth_map.shape == eco.layers@[j].growth_map.shape
                &&& lr.growth_map.centering == eco.layers@[j].growth_map.centering
                &&& lr.growth_map.parameters@ == eco.layers@[j].growth_map.parameters@
                &&& lr.channel_id == eco.layers@[j].channel_id
                &&& lr.radius == eco.layers@[j].radius
            },
        decreases eco.layers@.len() - l,
    {
        layers.push(LayerRecord {
            kernel: eco.layers[l].kernel.duplicate(),
            growth_map: eco.layers[l].growth_map.duplicate(),
            channel_id: eco.layers[l].channel_id,
            radius: eco.layers[l].radius,
        });
        l = l + 1;
    }
    let mut matrices: Vec<Vec<i64>> = Vec::new();
    let mut c: usize = 0;
    while c < eco.channels.len()
        invariant
            0 <= c <= eco.channels@.len(),
            matrices@.len() == c,
            forall|j: int| 0 <= j < c
                ==> (#[trigger] matrices@[j])@ == eco.channels@[j].matrix@,
        decreases eco.channels@.len() - c,
    {
        matrices.push(copy_cells(&eco.channels[c].matrix));
        c = c + 1;
    }
    let rec = EcoRecord {
        delta: eco.delta,
        size: eco.size,
        cycles: eco.cycles,
        fitness: eco.fitness,
        layers,
    };
    (rec, matrices)
}

/// Rebuilds an ecosystem from its record and channel arrays, validating
/// the whole configuration before any of it is used: a corrupt record is
/// rejected as a whole, and a returned ecosystem is ready to tick.
#[verifier::loop_isolation(false)]
pub fn from_record(rec: EcoRecord, matrices: Vec<Vec<i64>>) -> (r: Result<Eco, ConfigError>)
    ensures
        r is Ok <==> record_valid(rec, matrices@),
        match r {
            Ok(eco) => {
                &&& eco.ready()
                &&& eco.delta == rec.delta
                &&& eco.size == rec.size
                &&& eco.cycles == rec.cycles
                &&& eco.fitness == rec.fitness
                &&& eco.channels@.len() == matrices@.len()
                &&& forall|c: int| 0 <= c < eco.channels@.len()
                    ==> (#[trigger] eco.channels@[c]).matrix@ == matrices@[c]@
                &&& eco.layers@.len() == rec.layers@.len()
                &&& forall|l: int| 0 <= l < eco.layers@.len() ==> {
                    let le = #[trigger] eco.layers@[l];
                    &&& le.kernel.shape == rec.layers@[l].kernel.shape
                    &&& le.kernel.centering == rec.layers@[l].kernel.centering
                    &&& le.kernel.parameters@ == rec.layers@[l].kernel.parameters@
                    &&& le.growth_map.shape == rec.layers@[l].growth_map.shape
                    &&& le.growth_map.centering == rec.layers@[l].growth_map.centering
                    &&& le.growth_map.parameters@ == rec.layers@[l].growth_map.parameters@
                    &&& le.channel_id == rec.layers@[l].channel_id
                    &&& le.radius == rec.layers@[l].radius
                    &&& le.corner_policy == CornerPolicy::NaturalDecay
                }
            },
            Err(e) => !record_valid(rec, matrices@),
        },
{
    let ghost rec0: EcoRecord = rec;
    let ghost ms0: Seq<Vec<i64>> = matrices@;
    let mut rec = rec;
    let mut matrices = matrices;

    let width: usize = rec.size.0;
    let height: usize = rec.size.1;
    let mut channels: Vec<Channel> = Vec::new();
    let mut c: usize = 0;
    let nch: usize = matrices.len();
    while c < nch
        invariant
            0 <= c <= nch,
            nch == ms0.len(),
            matrices@.len() == nch - c,
            forall|j: int| 0 <= j < matrices@.len()
                ==> #[trigger] matrices@[j] == ms0[j + c],
            channels@.len() == c,
            forall|j: int| 0 <= j < c ==> {
                &&& (#[trigger] channels@[j]).matrix@ == ms0[j]@
                &&& channels@[j].width == width
                &&& channels@[j].height == height
                &&& channels@[j].wf()
                &&& channels@[j].quiescent()
            },
            rec == rec0,
        decreases nch - c,
    {
        let m: Vec<i64> = matrices.remove(0);
        match Channel::new(m, width, height) {
            Ok(ch) => {
                channels.push(ch);
            },
            Err(e) => {
                return Err(e);
            },
        }
        c = c + 1;
    }

    let mut layers: Vec<Layer> = Vec::new();
    let nl: usize = rec.layers.len();
    let mut l: usize = 0;
    while l < nl
        invariant
            0 <= l <= nl,
            nl == rec0.layers@.len(),
            rec.layers@.len() == nl - l,
            forall|j: int| 0 <= j < rec.layers@.len()
                ==> #[trigger] rec.layers@[j] == rec0.layers@[j + l],
            layers@.len() == l,
            forall|j: int| 0 <= j < l ==> {
                let le = #[trigger] layers@[j];
                &&& le.kernel == rec0.layers@[j].kernel
                &&& le.growth_map == rec0.layers@[j].growth_map
                &&& le.channel_id == rec0.layers@[j].channel_id
                &&& le.radius == rec0.layers@[j].radius
                &&& le.corner_policy == CornerPolicy::NaturalDecay
            },
            rec.delta == rec0.delta,
            rec.size == rec0.size,
            rec.cycles == rec0.cycles,
            rec.fitness == rec0.fitness,
        decreases nl - l,
    {
        let lr: LayerRecord = rec.layers.remove(0);
        layers.push(Layer::new(lr.kernel, lr.growth_map, lr.channel_id, lr.radius));
        l = l + 1;
    }

    let mut eco: Eco = Eco::new(rec.size, rec.delta, rec.cycles, channels, layers);
    eco.fitness = rec.fitness;
    let ghost eco0: Eco = eco;
    match eco.init() {
        Ok(()) => {
            proof {
                assert(record_valid(rec0, ms0)) by {
                    assert(eco0.config_valid());
                    assert forall|j: int| 0 <= j < ms0.len() implies {
                        &&& (#[trigger] ms0[j])@.len() == rec0.size.0 * rec0.size.1
                        &&& entries_in(ms0[j]@, 0, SCALE as int)
                    } by {
                        assert(eco0.channels@[j].matrix@ == ms0[j]@);
                        assert(eco0.channels@[j].wf());
                    }
                    assert forall|j: int| 0 <= j < rec0.layers@.len() implies {
                        &&& params_valid((#[trigger] rec0.layers@[j]).kernel.parameters@)
                        &&& !rec0.layers@[j].kernel.centering
                        &&& params_valid(rec0.layers@[j].growth_map.parameters@)
                        &&& 1 <= rec0.layers@[j].radius <= RADIUS_LIMIT
                        &&& (rec0.layers@[j].radius as int) < rec0.size.0
                        &&& (rec0.layers@[j].radius as int) < rec0.size.1
                        &&& rec0.layers@[j].channel_id < ms0.len()
                        &&& 1 <= kernel_total(rec0.layers@[j].kernel,
                            rec0.layers@[j].radius as int, CornerPolicy::NaturalDecay)
                    } by {
                        assert(eco0.layers@[j].config_ok());
                        assert(eco0.layers@[j].kernel == rec0.layers@[j].kernel);
                        assert(eco0.layers@[j].growth_map == rec0.layers@[j].growth_map);
                        assert(crate::conv::kernel_dims_ok(eco0.layers@[j].radius as int,
                            eco0.size.0 as int, eco0.size.1 as int));
                    }
                }
            }
            Ok(eco)
        },
        Err(e) => {
            proof {
                assert(!record_valid(rec0, ms0)) by {
                    if record_valid(rec0, ms0) {
                        assert forall|j: int| 0 <= j < eco0.channels@.len() implies {
                            &&& (#[trigger] eco0.channels@[j]).width == eco0.size.0
                            &&& eco0.channels@[j].height == eco0.size.1
                            &&& eco0.channels@[j].matrix@.len() == eco0.size.0 * eco0.size.1
                            &&& entries_in(eco0.channels@[j].matrix@, 0, SCALE as int)
                        } by {
                            assert(eco0.channels@[j].matrix@ == ms0[j]@);
                        }
                        assert forall|j: int| 0 <= j < eco0.layers@.len() implies {
                            &&& (#[trigger] eco0.layers@[j]).config_ok()
                            &&& eco0.layers@[j].channel_id < eco0.channels@.len()
                            &&& crate::conv::kernel_dims_ok(eco0.layers@[j].radius as int,
                                eco0.size.0 as int, eco0.size.1 as int)
                            &&& 1 <= kernel_total(eco0.layers@[j].kernel,
                                eco0.layers@[j].radius as int, eco0.layers@[j].corner_policy)
                        } by {
                            assert(eco0.layers@[j].kernel == rec0.layers@[j].kernel);
                            assert(eco0.layers@[j].growth_map == rec0.layers@[j].growth_map);
                        }
                        assert(eco0.config_valid());
                    }
                }
            }
            Err(e)
        },
    }
}

} // verus!
