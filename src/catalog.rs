use vstd::prelude::*;

verus! {

/// A satellite's official name and the other names it goes by.
#[derive(Clone, Debug)]
pub struct SatelliteName {
    pub official_name: String,
    pub aliases: Vec<String>,
}

/// The satellites that reports may be filed for.
#[derive(Clone, Debug)]
pub struct SatelliteList {
    pub satellites: Vec<SatelliteName>,
}

/// What the satellite catalogue says of one satellite.
#[derive(Clone, Debug)]
pub struct AllSatInfo {
    pub aliases: Option<Vec<String>>,
    /// Catalogue number.
    pub id: Option<u32>,
    /// Passes of this satellite are tracked.
    pub track: bool,
    /// Passes of this satellite are announced.
    pub notify: bool,
}

/// A satellite added to the catalogue while running.
#[derive(Clone, Copy, Debug, PartialEq, Eq, Structural)]
pub struct TempSatInfo {
    pub id: u32,
    pub track: bool,
    pub notify: bool,
}

/// A tracked satellite.
#[derive(Clone, Copy, Debug, PartialEq, Eq, Structural)]
pub struct SatInfo {
    pub id: u32,
}

/// A position report of a roaming station.
#[derive(Clone, Debug)]
pub struct RoamingData {
    pub callsign: String,
    pub grid: String,
    pub remark: Option<String>,
}

/// The tracked satellites that have a catalogue number, as (name, id), in order.
pub open spec fn track_list(sats: Seq<(String, AllSatInfo)>) -> Seq<(Seq<char>, u32)>
    decreases sats.len(),
{
    if sats.len() == 0 {
        Seq::empty()
    } else {
        let rest = track_list(sats.drop_last());
        let (name, info) = sats.last();
        if info.track && info.id is Some {
            rest.push((name@, info.id->0))
        } else {
            rest
        }
    }
}

/// The catalogue numbers of the satellites to announce, in order.
pub open spec fn notified(sats: Seq<(String, AllSatInfo)>) -> Seq<u32>
    decreases sats.len(),
{
    if sats.len() == 0 {
        Seq::empty()
    } else {
        let rest = notified(sats.drop_last());
        let info = sats.last().1;
        if info.notify && info.id is Some {
            rest.push(info.id->0)
        } else {
            rest
        }
    }
}

/// The tracked satellites of the catalogue, with their catalogue numbers.
pub fn get_track_sat_list(satellites: &Vec<(String, AllSatInfo)>) -> (r: Vec<(String, SatInfo)>)
    ensures
        r@.map_values(|p: (String, SatInfo)| (p.0@, p.1.id)) == track_list(satellites@),
{
    let mut out: Vec<(String, SatInfo)> = Vec::new();
    let mut i: usize = 0;
    while i < satellites.len()
        invariant
            i <= satellites@.len(),
            out@.map_values(|p: (String, SatInfo)| (p.0@, p.1.id)) == track_list(satellites@.subrange(0, i as int)),
        decreases satellites@.len() - i,
    {
        proof {
            assert(satellites@.subrange(0, i + 1).drop_last() =~= satellites@.subrange(0, i as int));
        }
        let info = &satellites[i].1;
        if info.track {
            match info.id {
                Some(id) => {
                    let ghost before = out@;
                    out.push((satellites[i].0.clone(), SatInfo { id }));
                    proof {
                        assert(out@.map_values(|p: (String, SatInfo)| (p.0@, p.1.id)) =~= before.map_values(
                            |p: (String, SatInfo)| (p.0@, p.1.id),
                        ).push((satellites@[i as int].0@, id)));
                    }
                },
                None => {},
            }
        }
        i = i + 1;
    }
    proof {
        assert(satellites@.subrange(0, i as int) =~= satellites@);
    }
    out
}

/// The catalogue numbers of the satellites whose passes are announced.
pub fn get_notify_id_list(sat_map: &Vec<(String, AllSatInfo)>) -> (r: Vec<u32>)
    ensures
        r@ == notified(sat_map@),
{
    let mut out: Vec<u32> = Vec::new();
    let mut i: usize = 0;
    while i < sat_map.len()
        invariant
            i <= sat_map@.len(),
            out@ == notified(sat_map@.subrange(0, i as int)),
        decreases sat_map@.len() - i,
    {
        proof {
            assert(sat_map@.subrange(0, i + 1).drop_last() =~= sat_map@.subrange(0, i as int));
        }
        let info = &sat_map[i].1;
        if info.notify {
            match info.id {
                Some(id) => out.push(id),
                None => {},
            }
        }
        i = i + 1;
    }
    proof {
        assert(sat_map@.subrange(0, i as int) =~= sat_map@);
    }
    out
}

} // verus!
