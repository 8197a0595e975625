//! Machines, their keys, and the verdicts on their proofs.
use zkm_pcs::air::machine::{dependencies_from_trace, LookupScope, MachineAir, MachineProgram,
    MachineRecord};
use zkm_pcs::air::picus::{PicusInfo, PicusProjectionInfo, PicusProjectionStart, Word};
use zkm_pcs::arith::trailing_zeros;
use zkm_pcs::ext::Ext;
use zkm_pcs::felt::Felt;
use zkm_pcs::machine::chips::StarkMachine;
use zkm_pcs::machine::debug::DebugFailure;
use zkm_pcs::machine::keys::{SerializableDomain, StarkGenericConfig, StarkProvingKey,
    StarkVerifyingKey};
use zkm_pcs::machine::numbers::Numbers;
use zkm_pcs::machine::verify::{machine_verdict, MachineVerificationError};
use zkm_pcs::merkle::Digest;
use zkm_pcs::selection::{order_by_place, select_by_name, select_by_number};
use zkm_pcs::septic::curve::SepticCurve;
use zkm_pcs::shard::device::{splice_device_remat_traces, views_over_owned, CircuitIds};
use zkm_pcs::shard::error::BasefoldVerifyError;
use zkm_pcs::shard::lookup::Trace;
use zkm_pcs::shard::openings::PaddedMle;
use zkm_pcs::shard::verify::BasefoldShardProof;
use zkm_pcs::transcript::Transcript;

/// A record of numbered events.
#[derive(Clone, Debug, PartialEq)]
struct Events(Vec<u32>);

impl MachineRecord for Events {
    fn empty() -> Events {
        Events(vec![])
    }

    fn append(&mut self, other: &mut Events) {
        self.0.append(&mut other.0);
    }

    fn public_values(&self) -> Vec<Felt> {
        vec![]
    }
}

struct Program;

impl MachineProgram for Program {
    fn pc_start(&self) -> Felt {
        Felt::new(77)
    }

    fn initial_global_cumulative_sum(&self) -> SepticCurve<Felt> {
        SepticCurve::dummy()
    }
}

/// A chip that takes records with an event of its number and produces the next number.
struct Step {
    name: &'static str,
    takes: u32,
    prep: Option<(Vec<u32>, usize)>,
    fails: bool,
}

fn step(name: &'static str, takes: u32) -> Step {
    Step { name, takes, prep: None, fails: false }
}

fn trace(cells: &[u32], width: usize) -> Trace {
    Trace { values: cells.iter().map(|x| Felt::new(*x)).collect(), width }
}

impl MachineAir for Step {
    type Record = Events;
    type Program = Program;
    type Error = String;

    fn name(&self) -> String {
        self.name.to_string()
    }

    fn generate_trace(&self, input: &Events, output: &mut Events) -> Result<Trace, String> {
        if self.fails {
            return Err(self.name.to_string());
        }
        output.0.push(self.takes + 1);
        Ok(trace(&input.0, 1))
    }

    fn generate_dependencies(&self, input: &Events, output: &mut Events) -> Result<(), String> {
        dependencies_from_trace(self, input, output)
    }

    fn included(&self, shard: &Events) -> bool {
        shard.0.contains(&self.takes)
    }

    fn preprocessed_width(&self) -> usize {
        self.prep.as_ref().map_or(0, |p| p.1)
    }

    fn generate_preprocessed_trace(&self, _program: &Program) -> Option<Trace> {
        self.prep.as_ref().map(|(c, w)| trace(c, *w))
    }

    fn commit_scope(&self) -> LookupScope {
        LookupScope::Local
    }
}

/// Settings whose commitment spells out the order, the cells and the orientation.
struct Config;

impl StarkGenericConfig for Config {
    type PrepPrecomputed = Vec<u32>;

    fn prep_precompute(named: &Vec<(String, Trace)>, rev: bool) -> Vec<u32> {
        let mut r = vec![rev as u32];
        for (name, t) in named {
            r.push(name.as_bytes()[0] as u32);
            r.extend(t.values.iter().map(|v| v.value()));
        }
        r
    }

    fn commit_root(data: &Vec<u32>) -> Digest {
        let mut r = [Felt::zero(); 8];
        for (i, x) in data.iter().enumerate().take(8) {
            r[i] = Felt::new(*x);
        }
        r
    }

    fn prep_commit(named: &Vec<(String, Trace)>, rev: bool) -> Digest {
        Config::commit_root(&Config::prep_precompute(named, rev))
    }

    fn natural_domain_for_degree(&self, degree: usize) -> (Felt, usize) {
        (Felt::one(), degree.next_power_of_two())
    }
}

fn machine() -> StarkMachine<Config, Step> {
    let mut b = step("B", 1);
    b.prep = Some((vec![5, 6, 7, 8], 2));
    let mut a = step("A", 2);
    a.prep = Some((vec![9], 1));
    StarkMachine::new_core_rev(Config, vec![b, step("C", 3), a], 2)
}

#[test]
fn only_the_core_machine_is_reversed() {
    let m: StarkMachine<Config, Step> = StarkMachine::new(Config, vec![], 3);
    assert!(!m.core_rev());
    assert_eq!(m.num_pv_elts(), 3);
    assert!(machine().core_rev());
    assert_eq!(machine().chips().len(), 3);
}

fn names(chips: Vec<&Step>) -> Vec<&'static str> {
    chips.into_iter().map(|c| c.name).collect()
}

#[test]
fn shard_chips_are_picked_and_ordered() {
    let m = machine();
    assert_eq!(names(m.shard_chips(&Events(vec![1, 2]))), vec!["B", "A"]);
    let ordering = vec![("A".to_string(), 1), ("C".to_string(), 0), ("X".to_string(), 2)];
    assert_eq!(names(m.shard_chips_ordered(&Numbers::of(ordering.clone()))), vec!["C", "A"]);
    assert_eq!(names(m.shard_chips_named(&ordering)), vec!["A", "C"]);
    assert_eq!(
        m.preprocessed_chip_dims(),
        vec![("A".to_string(), 1), ("B".to_string(), 2)]
    );
}

#[test]
fn dependencies_see_what_came_before_them() {
    let m = machine();
    let mut records = vec![Events(vec![1]), Events(vec![9])];
    assert_eq!(m.generate_dependencies(&mut records, None), Ok(()));
    // B turns 1 into 2; C wants 3, which is not there yet; A turns 2 into 3.
    assert_eq!(records, vec![Events(vec![1, 2, 3]), Events(vec![9])]);
    let only = vec!["A".to_string()];
    let mut records = vec![Events(vec![1])];
    assert_eq!(m.generate_dependencies(&mut records, Some(&only)), Ok(()));
    assert_eq!(records, vec![Events(vec![1])]);
}

#[test]
fn the_first_failure_stops_the_dependencies() {
    let mut bad = step("Bad", 2);
    bad.fails = true;
    let m = StarkMachine::new(Config, vec![step("Good", 1), bad], 0);
    let mut records = vec![Events(vec![1]), Events(vec![1])];
    assert_eq!(m.generate_dependencies(&mut records, None), Err("Bad".to_string()));
    assert_eq!(records, vec![Events(vec![1, 2]), Events(vec![1])]);
}

#[test]
fn setup_orders_by_name_and_seeds_the_opening() {
    let m = machine();
    let counts = vec![(1, 2), (3, 4), (5, 6)];
    let (pk, vk) = m.setup(&Program, &counts);
    let want: Vec<u32> = vec![1, 65, 9, 66, 5, 6, 7, 8];
    assert_eq!(pk.commit.map(|f| f.value()).to_vec(), want);
    assert_eq!(vk.commit, pk.commit);
    assert_eq!(pk.preprocessed_data_if_built(), Some(&want));
    assert_eq!(pk.traces[0].values, vec![Felt::new(9)]);
    assert_eq!(pk.chip_ordering.in_order(), vec!["A".to_string(), "B".to_string()]);
    assert_eq!(vk.chip_ordering.get(&"B".to_string()), Some(1));
    assert_eq!(vk.chip_ordering.get(&"C".to_string()), None);
    for (name, count) in [("B", 3), ("C", 7), ("A", 11)] {
        assert_eq!(pk.constraints_map.get(&name.to_string()), Some(count));
    }
    assert_eq!(vk.chip_information[1].0, "B");
    assert_eq!(vk.chip_information[1].1.log_size, 1);
    assert_eq!(vk.chip_information[1].1.shift, Felt::one());
    assert_eq!(vk.chip_information[1].2, (2, 2));
    assert_eq!(pk.pc_start, Felt::new(77));
    assert!(pk.prep_rev);
}

#[test]
fn rebuilding_gives_the_data_of_the_commitment() {
    let m = machine();
    let counts = vec![(0, 0); 3];
    let (with, _) = m.setup(&Program, &counts);
    let (mut without, vk) = m.setup_core(&Program, &counts, SepticCurve::dummy());
    assert_eq!(with.commit, without.commit);
    assert!(without.preprocessed_data_if_built().is_none());
    let built = without.preprocessed_data().clone();
    assert_eq!(Some(&built), with.preprocessed_data_if_built());
    assert_eq!(Config::commit_root(&built), vk.commit);
    let copy = without.clone();
    assert!(copy.preprocessed_data_if_built().is_none());
    assert_eq!(copy.commit, without.commit);
    assert_eq!(without.preprocessed_mles().len(), 2);
}

#[test]
fn keys_are_absorbed_alike_on_both_sides() {
    let (pk, vk) = machine().setup(&Program, &vec![(0, 0); 3]);
    let mut t = Transcript::new();
    pk.observe_into(&mut t);
    let mut u = Transcript::new();
    vk.observe_into(&mut u);
    let mut w = Transcript::new();
    w.observe_slice(&pk.commit.to_vec());
    w.observe(Felt::new(77));
    w.observe_slice(&SepticCurve::dummy().x.0.to_vec());
    w.observe_slice(&SepticCurve::dummy().y.0.to_vec());
    w.observe(Felt::zero());
    let x = w.sample();
    assert_eq!(t.sample(), x);
    assert_eq!(u.sample(), x);
    assert_eq!(vk.part_vk().commit, vk.commit);
    assert_eq!(vk.part_vk().pc_start, Felt::new(77));
}

type Shard = BasefoldShardProof<u8, u8, u8>;

fn key() -> StarkVerifyingKey {
    machine().setup(&Program, &vec![(0, 0); 3]).1
}

fn answers(list: Vec<bool>) -> Vec<Result<(), BasefoldVerifyError>> {
    list.into_iter()
        .enumerate()
        .map(|(i, ok)| {
            if ok {
                Ok(())
            } else {
                Err(BasefoldVerifyError::ChipCountMismatch { expected: i, got: 0 })
            }
        })
        .collect()
}

#[test]
fn verdicts_name_the_first_refusal() {
    assert!(machine_verdict(answers(vec![true, true]), true).is_ok());
    assert!(matches!(
        machine_verdict(answers(vec![]), true),
        Err(MachineVerificationError::EmptyProof)
    ));
    assert!(matches!(
        machine_verdict(answers(vec![true, false, false]), true),
        Err(MachineVerificationError::InvalidShardProof(
            BasefoldVerifyError::ChipCountMismatch { expected: 1, got: 0 }
        ))
    ));
    assert!(matches!(
        machine_verdict(answers(vec![true]), false),
        Err(MachineVerificationError::NonZeroCumulativeSum(LookupScope::Global, 0))
    ));
}

#[test]
fn a_proof_without_shards_is_empty() {
    let shards: Vec<Shard> = vec![];
    let r = machine().verify(
        &key(),
        &shards,
        &mut Transcript::new(),
        |_: &Shard, _: &Vec<&Step>, _: &Vec<(String, usize)>, _: Transcript| Ok(()),
        |_: &Vec<Shard>, _: SepticCurve<Felt>| true,
    );
    assert_eq!(r.unwrap_err().message(), "Empty proof");
}

#[test]
fn shard_transcripts_absorb_the_first_public_values() {
    let m = machine();
    let mut base = Transcript::new();
    key().observe_into(&mut base);
    let mut t = m.shard_transcript(&base, &vec![Felt::new(1), Felt::new(2), Felt::new(3)]);
    base.observe(Felt::new(1));
    base.observe(Felt::new(2));
    assert_eq!(t.sample(), base.sample());
}

#[test]
fn refusals_are_put_in_words() {
    let said = |e: MachineVerificationError| e.message();
    assert_eq!(
        said(MachineVerificationError::NonZeroCumulativeSum(LookupScope::Global, 12)),
        "Non-zero cumulative sum.  Scope: Global, Shard: 12"
    );
    assert_eq!(
        said(MachineVerificationError::InvalidShardProof(BasefoldVerifyError::ChipCountMismatch {
            expected: 2,
            got: 1
        })),
        "Invalid shard proof: chip count mismatch: expected 2, got 1"
    );
    assert_eq!(
        said(MachineVerificationError::InvalidPublicValuesDigest),
        "Invalid public values digest"
    );
    assert_eq!(said(MachineVerificationError::DebugLookupsFailed), "Debug lookups failed");
    assert_eq!(
        said(MachineVerificationError::InvalidPublicValues("pc")),
        "Invalid public values: pc"
    );
    assert_eq!(said(MachineVerificationError::TooManyShards), "Too many shards");
    assert_eq!(
        said(MachineVerificationError::InvalidChipOccurrence("Cpu".to_string())),
        "Invalid chip occurrence: Cpu"
    );
    assert_eq!(
        said(MachineVerificationError::MissingCpuInFirstShard),
        "Missing CPU in first shard"
    );
    assert_eq!(
        said(MachineVerificationError::CpuLogDegreeTooLarge(23)),
        "CPU log degree too large: 23"
    );
    assert_eq!(
        said(MachineVerificationError::InvalidVerificationKey),
        "Invalid verification key"
    );
}

#[test]
fn debugging_names_the_first_shard_that_fails() {
    let m = machine();
    let (pk, _) = m.setup(&Program, &vec![(0, 0); 3]);
    let records = vec![Events(vec![1]), Events(vec![3])];
    let run = |local: u32, good: bool, global: bool| {
        m.debug_constraints(
            &pk,
            &records,
            &mut Transcript::new(),
            SepticCurve::dummy(),
            |c: &Step, p: Option<&Trace>, main: &Trace, ch: &Vec<Ext>| {
                assert_eq!(p.is_some(), c.prep.is_some());
                assert_eq!(main.width, 1);
                assert_eq!(ch.len(), 4);
                ((), Ext::from_base(Felt::new(if c.takes == 3 { local } else { 0 })))
            },
            |_: &Step,
             _: Option<&Trace>,
             _: &zkm_pcs::machine::debug::ChipRun<()>,
             _: &Vec<Ext>,
             _: &Vec<Felt>| good,
            |sums: &Vec<Vec<SepticCurve<Felt>>>, _: SepticCurve<Felt>| {
                assert_eq!(sums.len(), 2);
                global
            },
        )
        .2
    };
    assert_eq!(run(0, true, true), Ok(()));
    assert_eq!(run(0, true, false), Err(DebugFailure::GlobalSum));
    assert_eq!(run(5, true, true), Err(DebugFailure::LocalSum(1)));
    assert_eq!(run(0, false, true), Err(DebugFailure::Constraints(0, 0)));
}

#[test]
fn selections_are_stable() {
    let n: Vec<String> = ["b", "a", "b", "c"].iter().map(|s| s.to_string()).collect();
    assert_eq!(select_by_name(&n, &vec![true, true, true, false]), vec![1, 0, 2]);
    assert_eq!(select_by_number(&vec![3, 1, 3, 0], &vec![true; 4]), vec![3, 1, 0, 2]);
    let placed = vec![("b".to_string(), 1), ("a".to_string(), 1), ("z".to_string(), 0)];
    assert_eq!(order_by_place(&placed), vec![2, 1, 0]);
}

#[test]
fn numbers_by_name_keep_the_last_entry() {
    let n = Numbers::of(vec![
        ("b".to_string(), 4),
        ("a".to_string(), 4),
        ("c".to_string(), 1),
        ("b".to_string(), 2),
    ]);
    assert_eq!(n.get(&"b".to_string()), Some(2));
    assert_eq!(n.get(&"d".to_string()), None);
    assert_eq!(n.in_order(), vec!["c".to_string(), "b".to_string(), "a".to_string()]);
    let m = n.duplicate();
    assert_eq!(m.in_order(), n.in_order());
    assert_eq!(m.get(&"a".to_string()), Some(4));
}

#[test]
fn projections_start_at_the_first_column() {
    assert_eq!(7usize.projection_start(), 7);
    assert_eq!([[4usize, 5], [6, 7]].projection_start(), 4);
    assert_eq!(Word([9usize, 10, 11, 12]).projection_start(), 9);
    assert!(PicusInfo::default().is_real_index.is_none());
    assert!(PicusProjectionInfo::default().col_to_name.is_empty());
}

#[test]
fn defaults_of_a_chip_say_nothing() {
    let c = step("A", 1);
    assert_eq!(c.num_rows(&Events(vec![])), None);
    assert_eq!(c.preprocessed_num_rows(&Program, 5), None);
    assert!(!c.selectors_partition_real_rows());
    assert!(c.picus_selector_specialization_allowed("is_add"));
    assert!(c.picus_info().selector_indices.is_empty());
}

#[test]
fn circuit_numbers_start_at_one() {
    let mut ids = CircuitIds::new();
    assert_eq!(ids.allocate_gpu_layer_circuit_id(), 1);
    assert_eq!(ids.allocate_gpu_layer_circuit_id(), 2);
}

#[test]
fn trailing_zeros_count_twos() {
    assert_eq!(trailing_zeros(1), 0);
    assert_eq!(trailing_zeros(12), 2);
    assert_eq!(trailing_zeros(1 << 20), 20);
    let d = SerializableDomain::new(Felt::one(), 4);
    assert_eq!(d.log_size, 4);
}

#[test]
fn fetched_rows_fill_the_traces_without_any() {
    let here = PaddedMle { inner: Some(trace(&[1], 1)), metadata_height: None };
    let there = PaddedMle { inner: None, metadata_height: Some(2) };
    let gone = PaddedMle { inner: None, metadata_height: Some(3) };
    let fetched = vec![Some(trace(&[7], 1)), Some(trace(&[8, 9], 1)), None];
    let r = splice_device_remat_traces(&vec![here, there, gone], &fetched);
    assert_eq!(r[0].inner.as_ref().unwrap().values, vec![Felt::new(1)]);
    assert_eq!(r[1].inner.as_ref().unwrap().values, vec![Felt::new(8), Felt::new(9)]);
    assert!(r[2].inner.is_none());
    assert_eq!(r[2].metadata_height, Some(3));
    let v = views_over_owned(&vec![("A".to_string(), trace(&[1, 2, 3], 1))]);
    assert_eq!(v[0].2, 2);
    assert_eq!(v[0].1.inner.as_ref().unwrap().values.len(), 3);
}

#[test]
fn keys_of_parts_hold_them() {
    let pk: StarkProvingKey<Config> = StarkProvingKey::from_parts(
        [Felt::one(); 8],
        Felt::new(3),
        SepticCurve::dummy(),
        vec![trace(&[4], 1), trace(&[5], 1)],
        Numbers::of(vec![("Z".to_string(), 0), ("A".to_string(), 1)]),
        Numbers::of(vec![]),
        false,
    );
    let mut pk = pk;
    assert_eq!(*pk.preprocessed_data(), vec![0, 90, 4, 65, 5]);
}
