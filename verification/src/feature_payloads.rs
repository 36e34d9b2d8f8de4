//! The payloads of the feature table read as bytes, and the law that each
//! feature, once its writes land, reads as disabled. Each decimal text is
//! built up one number at a time and then parsed back.
use vstd::prelude::*;
use crate::features::{any_read_absent, any_read_error, disabled_by, feature_table, read_payloads, status_text, FeatureModel};
use crate::text::dec_digits;
use crate::util::{EfsReadModel, dec_join, law_space_dec_roundtrip, lemma_dec_join_first, lemma_dec_join_step, space_dec};

verus! {

/// The bytes a write's text puts in its item (none when it does not parse).
pub open spec fn payload(text: Seq<char>) -> Seq<u8> {
    match space_dec(text) {
        Ok(b) => b,
        Err(_) => Seq::empty(),
    }
}

/// A feature's writes make it read as disabled: one write per item it reads,
/// to the same item in the same order; every payload parses; and the bytes
/// written satisfy the feature's rule.
pub open spec fn writes_disable(f: FeatureModel) -> bool {
    &&& f.writes.len() == f.reads.len()
    &&& forall|i: int| 0 <= i < f.writes.len() ==> (#[trigger] f.writes[i]).0 == f.reads[i] && space_dec(f.writes[i].1) is Ok
    &&& disabled_by(f.rule, Seq::new(f.writes.len(), |i: int| payload(f.writes[i].1)))
}

/// Every feature, once its writes land, reads as disabled.
pub proof fn law_feature_writes_disable(k: int)
    requires
        0 <= k < feature_table().len(),
    ensures
        writes_disable(feature_table()[k]),
{
    if k == 0 {
        lemma_feature_0_disabled();
    } else if k == 1 {
        lemma_feature_1_disabled();
    } else if k == 2 {
        lemma_feature_2_disabled();
    } else if k == 3 {
        lemma_feature_3_disabled();
    } else if k == 4 {
        lemma_feature_4_disabled();
    } else if k == 5 {
        lemma_feature_5_disabled();
    } else if k == 6 {
        lemma_feature_6_disabled();
    } else if k == 7 {
        lemma_feature_7_disabled();
    } else if k == 8 {
        lemma_feature_8_disabled();
    } else if k == 9 {
        lemma_feature_9_disabled();
    } else if k == 10 {
        lemma_feature_10_disabled();
    } else {
        lemma_feature_11_disabled();
    }
}

#[verifier::spinoff_prover]
proof fn lemma_feature_0_disabled()
    ensures
        writes_disable(feature_table()[0]),
{
    let f = feature_table()[0];
    lemma_payload_zeros24();
    let arrays = Seq::new(f.writes.len(), |i: int| payload(f.writes[i].1));
    assert(arrays[0] == seq![0u8, 0u8, 0u8, 0u8, 0u8, 0u8, 0u8, 0u8, 0u8, 0u8, 0u8, 0u8, 0u8, 0u8, 0u8, 0u8, 0u8, 0u8, 0u8, 0u8, 0u8, 0u8, 0u8, 0u8]);
}

#[verifier::spinoff_prover]
proof fn lemma_feature_1_disabled()
    ensures
        writes_disable(feature_table()[1]),
{
    let f = feature_table()[1];
    lemma_payload_zeros17();
    lemma_payload_zeros3();
    let arrays = Seq::new(f.writes.len(), |i: int| payload(f.writes[i].1));
    assert(arrays[0] == seq![0u8, 0u8, 0u8, 0u8, 0u8, 0u8, 0u8, 0u8, 0u8, 0u8, 0u8, 0u8, 0u8, 0u8, 0u8, 0u8, 0u8]);
    assert(arrays[1] == seq![0u8, 0u8, 0u8]);
}

#[verifier::spinoff_prover]
proof fn lemma_feature_2_disabled()
    ensures
        writes_disable(feature_table()[2]),
{
    let f = feature_table()[2];
    lemma_payload_ul_mimo();
    let arrays = Seq::new(f.writes.len(), |i: int| payload(f.writes[i].1));
    assert(arrays[0] == seq![1u8, 1u8, 0u8, 0u8, 0u8, 0u8, 0u8, 0u8, 0u8, 0u8, 0u8, 0u8, 0u8, 0u8, 0u8, 0u8, 0u8, 0u8, 0u8, 0u8, 0u8, 0u8, 0u8, 0u8, 0u8, 0u8, 0u8, 0u8, 0u8, 0u8, 0u8, 0u8, 0u8, 0u8, 0u8, 0u8, 0u8, 0u8, 0u8, 0u8, 0u8, 0u8, 0u8, 0u8]);
    assert(arrays[0].take(3) =~= seq![1u8, 1u8, 0u8]);
}

#[verifier::spinoff_prover]
proof fn lemma_feature_3_disabled()
    ensures
        writes_disable(feature_table()[3]),
{
    let f = feature_table()[3];
    lemma_payload_zeros2();
    let arrays = Seq::new(f.writes.len(), |i: int| payload(f.writes[i].1));
    assert(arrays[0] == seq![0u8, 0u8]);
    assert(arrays[0].take(2) =~= seq![0u8, 0u8]);
}

#[verifier::spinoff_prover]
proof fn lemma_feature_4_disabled()
    ensures
        writes_disable(feature_table()[4]),
{
    let f = feature_table()[4];
    lemma_payload_zero();
    lemma_payload_ulca3x();
    lemma_payload_ulca4x();
    lemma_payload_ulca4x_v2();
    lemma_payload_zeros2();
    let arrays = Seq::new(f.writes.len(), |i: int| payload(f.writes[i].1));
    assert(arrays[0] == seq![0u8]);
    assert(arrays[0].take(1) =~= seq![0u8]);
    assert(arrays[1] == seq![1u8, 1u8, 1u8, 1u8, 0u8, 0u8]);
    assert(arrays[1].take(6) =~= seq![1u8, 1u8, 1u8, 1u8, 0u8, 0u8]);
    assert(arrays[2] == seq![0u8, 1u8, 1u8]);
    assert(arrays[2].take(3) =~= seq![0u8, 1u8, 1u8]);
    assert(arrays[3] == seq![0u8, 1u8, 1u8, 0u8, 1u8, 1u8]);
    assert(arrays[3].take(6) =~= seq![0u8, 1u8, 1u8, 0u8, 1u8, 1u8]);
    assert(arrays[4] == seq![0u8, 0u8]);
    assert(arrays[4].take(2) =~= seq![0u8, 0u8]);
}

#[verifier::spinoff_prover]
proof fn lemma_feature_5_disabled()
    ensures
        writes_disable(feature_table()[5]),
{
    let f = feature_table()[5];
    lemma_payload_one();
    let arrays = Seq::new(f.writes.len(), |i: int| payload(f.writes[i].1));
    assert(arrays[0] == seq![1u8]);
    assert(arrays[0].take(1) =~= seq![1u8]);
}

#[verifier::spinoff_prover]
proof fn lemma_feature_6_disabled()
    ensures
        writes_disable(feature_table()[6]),
{
    let f = feature_table()[6];
    lemma_payload_lowband();
    let arrays = Seq::new(f.writes.len(), |i: int| payload(f.writes[i].1));
    assert(arrays[0] == seq![0u8, 0u8, 0u8, 5u8, 8u8, 0u8, 0u8, 2u8, 20u8, 0u8, 0u8, 2u8, 26u8, 0u8, 0u8, 2u8, 28u8, 0u8, 0u8, 2u8, 71u8, 0u8, 0u8, 2u8, 0u8, 0u8, 0u8, 0u8, 0u8, 0u8, 0u8, 0u8, 0u8, 0u8, 0u8, 0u8, 0u8, 0u8, 0u8, 0u8, 0u8, 0u8, 0u8, 0u8]);
    assert(arrays[0].take(24) =~= seq![0u8, 0u8, 0u8, 5u8, 8u8, 0u8, 0u8, 2u8, 20u8, 0u8, 0u8, 2u8, 26u8, 0u8, 0u8, 2u8, 28u8, 0u8, 0u8, 2u8, 71u8, 0u8, 0u8, 2u8]);
}

#[verifier::spinoff_prover]
proof fn lemma_feature_7_disabled()
    ensures
        writes_disable(feature_table()[7]),
{
    let f = feature_table()[7];
    lemma_payload_zero();
    lemma_payload_seven();
    let arrays = Seq::new(f.writes.len(), |i: int| payload(f.writes[i].1));
    assert(arrays[0] == seq![0u8]);
    assert(arrays[0].take(1) =~= seq![0u8]);
    assert(arrays[1] == seq![7u8]);
    assert(arrays[1].take(1) =~= seq![7u8]);
}

#[verifier::spinoff_prover]
proof fn lemma_feature_8_disabled()
    ensures
        writes_disable(feature_table()[8]),
{
    let f = feature_table()[8];
    lemma_payload_zero();
    let arrays = Seq::new(f.writes.len(), |i: int| payload(f.writes[i].1));
    assert(arrays[0] == seq![0u8]);
    assert(arrays[0].take(1) =~= seq![0u8]);
}

#[verifier::spinoff_prover]
proof fn lemma_feature_9_disabled()
    ensures
        writes_disable(feature_table()[9]),
{
    let f = feature_table()[9];
    lemma_payload_zeros3();
    lemma_payload_zeros2();
    let arrays = Seq::new(f.writes.len(), |i: int| payload(f.writes[i].1));
    assert(arrays[0] == seq![0u8, 0u8, 0u8]);
    assert(arrays[0].take(3) =~= seq![0u8, 0u8, 0u8]);
    assert(arrays[1] == seq![0u8, 0u8]);
    assert(arrays[1].take(2) =~= seq![0u8, 0u8]);
}

#[verifier::spinoff_prover]
proof fn lemma_feature_10_disabled()
    ensures
        writes_disable(feature_table()[10]),
{
    let f = feature_table()[10];
    lemma_payload_zero();
    let arrays = Seq::new(f.writes.len(), |i: int| payload(f.writes[i].1));
    assert(arrays[0] == seq![0u8]);
    assert(arrays[0].take(1) =~= seq![0u8]);
}

#[verifier::spinoff_prover]
proof fn lemma_feature_11_disabled()
    ensures
        writes_disable(feature_table()[11]),
{
    let f = feature_table()[11];
    lemma_payload_zeros2();
    let arrays = Seq::new(f.writes.len(), |i: int| payload(f.writes[i].1));
    assert(arrays[0] == seq![0u8, 0u8]);
    assert(arrays[0].take(2) =~= seq![0u8, 0u8]);
}

/// Once a feature's writes land, each of its items reads back as the bytes
/// written to it, and the feature's status reads `"disabled"`.
pub proof fn law_landed_writes_read_disabled(k: int, reads: Seq<EfsReadModel>)
    requires
        0 <= k < feature_table().len(),
        reads.len() == feature_table()[k].writes.len(),
        forall|i: int|
            0 <= i < reads.len() ==> #[trigger] reads[i] == EfsReadModel::Present(
                payload(feature_table()[k].writes[i].1),
            ),
    ensures
        status_text(feature_table()[k], reads) == "disabled"@,
{
    let f = feature_table()[k];
    law_feature_writes_disable(k);
    assert(!any_read_error(reads));
    assert(!any_read_absent(reads));
    assert(read_payloads(reads) =~= Seq::new(f.writes.len(), |i: int| payload(f.writes[i].1)));
}

/// The decimal texts the payloads use.
proof fn lemma_decimal_texts()
    ensures
        dec_digits(0) == seq!['0'],
        dec_digits(1) == seq!['1'],
        dec_digits(2) == seq!['2'],
        dec_digits(5) == seq!['5'],
        dec_digits(7) == seq!['7'],
        dec_digits(8) == seq!['8'],
        dec_digits(20) == seq!['2', '0'],
        dec_digits(26) == seq!['2', '6'],
        dec_digits(28) == seq!['2', '8'],
        dec_digits(71) == seq!['7', '1'],
{
    reveal_with_fuel(dec_digits, 2);
}

proof fn lemma_payload_zeros24()
    ensures
        space_dec("0 0 0 0 0 0 0 0 0 0 0 0 0 0 0 0 0 0 0 0 0 0 0 0"@) == Ok::<Seq<u8>, Seq<char>>(seq![0u8, 0u8, 0u8, 0u8, 0u8, 0u8, 0u8, 0u8, 0u8, 0u8, 0u8, 0u8, 0u8, 0u8, 0u8, 0u8, 0u8, 0u8, 0u8, 0u8, 0u8, 0u8, 0u8, 0u8]),
{
    let b: Seq<u8> = seq![0u8, 0u8, 0u8, 0u8, 0u8, 0u8, 0u8, 0u8, 0u8, 0u8, 0u8, 0u8, 0u8, 0u8, 0u8, 0u8, 0u8, 0u8, 0u8, 0u8, 0u8, 0u8, 0u8, 0u8];
    lemma_decimal_texts();
    assert(dec_join(b.take(1)) == seq!['0']) by {
        lemma_dec_join_first(b);
    }
    assert(dec_join(b.take(2)) == seq!['0', ' ', '0']) by {
        lemma_dec_join_step(b, 1);
        assert(seq!['0'] + seq![' '] + dec_digits(b[1] as nat) =~= seq!['0', ' ', '0']);
    }
    assert(dec_join(b.take(3)) == seq!['0', ' ', '0', ' ', '0']) by {
        lemma_dec_join_step(b, 2);
        assert(seq!['0', ' ', '0'] + seq![' '] + dec_digits(b[2] as nat) =~= seq!['0', ' ', '0', ' ', '0']);
    }
    assert(dec_join(b.take(4)) == seq!['0', ' ', '0', ' ', '0', ' ', '0']) by {
        lemma_dec_join_step(b, 3);
        assert(seq!['0', ' ', '0', ' ', '0'] + seq![' '] + dec_digits(b[3] as nat) =~= seq!['0', ' ', '0', ' ', '0', ' ', '0']);
    }
    assert(dec_join(b.take(5)) == seq!['0', ' ', '0', ' ', '0', ' ', '0', ' ', '0']) by {
        lemma_dec_join_step(b, 4);
        assert(seq!['0', ' ', '0', ' ', '0', ' ', '0'] + seq![' '] + dec_digits(b[4] as nat) =~= seq!['0', ' ', '0', ' ', '0', ' ', '0', ' ', '0']);
    }
    assert(dec_join(b.take(6)) == seq!['0', ' ', '0', ' ', '0', ' ', '0', ' ', '0', ' ', '0']) by {
        lemma_dec_join_step(b, 5);
        assert(seq!['0', ' ', '0', ' ', '0', ' ', '0', ' ', '0'] + seq![' '] + dec_digits(b[5] as nat) =~= seq!['0', ' ', '0', ' ', '0', ' ', '0', ' ', '0', ' ', '0']);
    }
    assert(dec_join(b.take(7)) == seq!['0', ' ', '0', ' ', '0', ' ', '0', ' ', '0', ' ', '0', ' ', '0']) by {
        lemma_dec_join_step(b, 6);
        assert(seq!['0', ' ', '0', ' ', '0', ' ', '0', ' ', '0', ' ', '0'] + seq![' '] + dec_digits(b[6] as nat) =~= seq!['0', ' ', '0', ' ', '0', ' ', '0', ' ', '0', ' ', '0', ' ', '0']);
    }
    assert(dec_join(b.take(8)) == seq!['0', ' ', '0', ' ', '0', ' ', '0', ' ', '0', ' ', '0', ' ', '0', ' ', '0']) by {
        lemma_dec_join_step(b, 7);
        assert(seq!['0', ' ', '0', ' ', '0', ' ', '0', ' ', '0', ' ', '0', ' ', '0'] + seq![' '] + dec_digits(b[7] as nat) =~= seq!['0', ' ', '0', ' ', '0', ' ', '0', ' ', '0', ' ', '0', ' ', '0', ' ', '0']);
    }
    assert(dec_join(b.take(9)) == seq!['0', ' ', '0', ' ', '0', ' ', '0', ' ', '0', ' ', '0', ' ', '0', ' ', '0', ' ', '0']) by {
        lemma_dec_join_step(b, 8);
        assert(seq!['0', ' ', '0', ' ', '0', ' ', '0', ' ', '0', ' ', '0', ' ', '0', ' ', '0'] + seq![' '] + dec_digits(b[8] as nat) =~= seq!['0', ' ', '0', ' ', '0', ' ', '0', ' ', '0', ' ', '0', ' ', '0', ' ', '0', ' ', '0']);
    }
    assert(dec_join(b.take(10)) == seq!['0', ' ', '0', ' ', '0', ' ', '0', ' ', '0', ' ', '0', ' ', '0', ' ', '0', ' ', '0', ' ', '0']) by {
        lemma_dec_join_step(b, 9);
        assert(seq!['0', ' ', '0', ' ', '0', ' ', '0', ' ', '0', ' ', '0', ' ', '0', ' ', '0', ' ', '0'] + seq![' '] + dec_digits(b[9] as nat) =~= seq!['0', ' ', '0', ' ', '0', ' ', '0', ' ', '0', ' ', '0', ' ', '0', ' ', '0', ' ', '0', ' ', '0']);
    }
    assert(dec_join(b.take(11)) == seq!['0', ' ', '0', ' ', '0', ' ', '0', ' ', '0', ' ', '0', ' ', '0', ' ', '0', ' ', '0', ' ', '0', ' ', '0']) by {
        lemma_dec_join_step(b, 10);
        assert(seq!['0', ' ', '0', ' ', '0', ' ', '0', ' ', '0', ' ', '0', ' ', '0', ' ', '0', ' ', '0', ' ', '0'] + seq![' '] + dec_digits(b[10] as nat) =~= seq!['0', ' ', '0', ' ', '0', ' ', '0', ' ', '0', ' ', '0', ' ', '0', ' ', '0', ' ', '0', ' ', '0', ' ', '0']);
    }
    assert(dec_join(b.take(12)) == seq!['0', ' ', '0', ' ', '0', ' ', '0', ' ', '0', ' ', '0', ' ', '0', ' ', '0', ' ', '0', ' ', '0', ' ', '0', ' ', '0']) by {
        lemma_dec_join_step(b, 11);
        assert(seq!['0', ' ', '0', ' ', '0', ' ', '0', ' ', '0', ' ', '0', ' ', '0', ' ', '0', ' ', '0', ' ', '0', ' ', '0'] + seq![' '] + dec_digits(b[11] as nat) =~= seq!['0', ' ', '0', ' ', '0', ' ', '0', ' ', '0', ' ', '0', ' ', '0', ' ', '0', ' ', '0', ' ', '0', ' ', '0', ' ', '0']);
    }
    assert(dec_join(b.take(13)) == seq!['0', ' ', '0', ' ', '0', ' ', '0', ' ', '0', ' ', '0', ' ', '0', ' ', '0', ' ', '0', ' ', '0', ' ', '0', ' ', '0', ' ', '0']) by {
        lemma_dec_join_step(b, 12);
        assert(seq!['0', ' ', '0', ' ', '0', ' ', '0', ' ', '0', ' ', '0', ' ', '0', ' ', '0', ' ', '0', ' ', '0', ' ', '0', ' ', '0'] + seq![' '] + dec_digits(b[12] as nat) =~= seq!['0', ' ', '0', ' ', '0', ' ', '0', ' ', '0', ' ', '0', ' ', '0', ' ', '0', ' ', '0', ' ', '0', ' ', '0', ' ', '0', ' ', '0']);
    }
    assert(dec_join(b.take(14)) == seq!['0', ' ', '0', ' ', '0', ' ', '0', ' ', '0', ' ', '0', ' ', '0', ' ', '0', ' ', '0', ' ', '0', ' ', '0', ' ', '0', ' ', '0', ' ', '0']) by {
        lemma_dec_join_step(b, 13);
        assert(seq!['0', ' ', '0', ' ', '0', ' ', '0', ' ', '0', ' ', '0', ' ', '0', ' ', '0', ' ', '0', ' ', '0', ' ', '0', ' ', '0', ' ', '0'] + seq![' '] + dec_digits(b[13] as nat) =~= seq!['0', ' ', '0', ' ', '0', ' ', '0', ' ', '0', ' ', '0', ' ', '0', ' ', '0', ' ', '0', ' ', '0', ' ', '0', ' ', '0', ' ', '0', ' ', '0']);
    }
    assert(dec_join(b.take(15)) == seq!['0', ' ', '0', ' ', '0', ' ', '0', ' ', '0', ' ', '0', ' ', '0', ' ', '0', ' ', '0', ' ', '0', ' ', '0', ' ', '0', ' ', '0', ' ', '0', ' ', '0']) by {
        lemma_dec_join_step(b, 14);
        assert(seq!['0', ' ', '0', ' ', '0', ' ', '0', ' ', '0', ' ', '0', ' ', '0', ' ', '0', ' ', '0', ' ', '0', ' ', '0', ' ', '0', ' ', '0', ' ', '0'] + seq![' '] + dec_digits(b[14] as nat) =~= seq!['0', ' ', '0', ' ', '0', ' ', '0', ' ', '0', ' ', '0', ' ', '0', ' ', '0', ' ', '0', ' ', '0', ' ', '0', ' ', '0', ' ', '0', ' ', '0', ' ', '0']);
    }
    assert(dec_join(b.take(16)) == seq!['0', ' ', '0', ' ', '0', ' ', '0', ' ', '0', ' ', '0', ' ', '0', ' ', '0', ' ', '0', ' ', '0', ' ', '0', ' ', '0', ' ', '0', ' ', '0', ' ', '0', ' ', '0']) by {
        lemma_dec_join_step(b, 15);
        assert(seq!['0', ' ', '0', ' ', '0', ' ', '0', ' ', '0', ' ', '0', ' ', '0', ' ', '0', ' ', '0', ' ', '0', ' ', '0', ' ', '0', ' ', '0', ' ', '0', ' ', '0'] + seq![' '] + dec_digits(b[15] as nat) =~= seq!['0', ' ', '0', ' ', '0', ' ', '0', ' ', '0', ' ', '0', ' ', '0', ' ', '0', ' ', '0', ' ', '0', ' ', '0', ' ', '0', ' ', '0', ' ', '0', ' ', '0', ' ', '0']);
    }
    assert(dec_join(b.take(17)) == seq!['0', ' ', '0', ' ', '0', ' ', '0', ' ', '0', ' ', '0', ' ', '0', ' ', '0', ' ', '0', ' ', '0', ' ', '0', ' ', '0', ' ', '0', ' ', '0', ' ', '0', ' ', '0', ' ', '0']) by {
        lemma_dec_join_step(b, 16);
        assert(seq!['0', ' ', '0', ' ', '0', ' ', '0', ' ', '0', ' ', '0', ' ', '0', ' ', '0', ' ', '0', ' ', '0', ' ', '0', ' ', '0', ' ', '0', ' ', '0', ' ', '0', ' ', '0'] + seq![' '] + dec_digits(b[16] as nat) =~= seq!['0', ' ', '0', ' ', '0', ' ', '0', ' ', '0', ' ', '0', ' ', '0', ' ', '0', ' ', '0', ' ', '0', ' ', '0', ' ', '0', ' ', '0', ' ', '0', ' ', '0', ' ', '0', ' ', '0']);
    }
    assert(dec_join(b.take(18)) == seq!['0', ' ', '0', ' ', '0', ' ', '0', ' ', '0', ' ', '0', ' ', '0', ' ', '0', ' ', '0', ' ', '0', ' ', '0', ' ', '0', ' ', '0', ' ', '0', ' ', '0', ' ', '0', ' ', '0', ' ', '0']) by {
        lemma_dec_join_step(b, 17);
        assert(seq!['0', ' ', '0', ' ', '0', ' ', '0', ' ', '0', ' ', '0', ' ', '0', ' ', '0', ' ', '0', ' ', '0', ' ', '0', ' ', '0', ' ', '0', ' ', '0', ' ', '0', ' ', '0', ' ', '0'] + seq![' '] + dec_digits(b[17] as nat) =~= seq!['0', ' ', '0', ' ', '0', ' ', '0', ' ', '0', ' ', '0', ' ', '0', ' ', '0', ' ', '0', ' ', '0', ' ', '0', ' ', '0', ' ', '0', ' ', '0', ' ', '0', ' ', '0', ' ', '0', ' ', '0']);
    }
    assert(dec_join(b.take(19)) == seq!['0', ' ', '0', ' ', '0', ' ', '0', ' ', '0', ' ', '0', ' ', '0', ' ', '0', ' ', '0', ' ', '0', ' ', '0', ' ', '0', ' ', '0', ' ', '0', ' ', '0', ' ', '0', ' ', '0', ' ', '0', ' ', '0']) by {
        lemma_dec_join_step(b, 18);
        assert(seq!['0', ' ', '0', ' ', '0', ' ', '0', ' ', '0', ' ', '0', ' ', '0', ' ', '0', ' ', '0', ' ', '0', ' ', '0', ' ', '0', ' ', '0', ' ', '0', ' ', '0', ' ', '0', ' ', '0', ' ', '0'] + seq![' '] + dec_digits(b[18] as nat) =~= seq!['0', ' ', '0', ' ', '0', ' ', '0', ' ', '0', ' ', '0', ' ', '0', ' ', '0', ' ', '0', ' ', '0', ' ', '0', ' ', '0', ' ', '0', ' ', '0', ' ', '0', ' ', '0', ' ', '0', ' ', '0', ' ', '0']);
    }
    assert(dec_join(b.take(20)) == seq!['0', ' ', '0', ' ', '0', ' ', '0', ' ', '0', ' ', '0', ' ', '0', ' ', '0', ' ', '0', ' ', '0', ' ', '0', ' ', '0', ' ', '0', ' ', '0', ' ', '0', ' ', '0', ' ', '0', ' ', '0', ' ', '0', ' ', '0']) by {
        lemma_dec_join_step(b, 19);
        assert(seq!['0', ' ', '0', ' ', '0', ' ', '0', ' ', '0', ' ', '0', ' ', '0', ' ', '0', ' ', '0', ' ', '0', ' ', '0', ' ', '0', ' ', '0', ' ', '0', ' ', '0', ' ', '0', ' ', '0', ' ', '0', ' ', '0'] + seq![' '] + dec_digits(b[19] as nat) =~= seq!['0', ' ', '0', ' ', '0', ' ', '0', ' ', '0', ' ', '0', ' ', '0', ' ', '0', ' ', '0', ' ', '0', ' ', '0', ' ', '0', ' ', '0', ' ', '0', ' ', '0', ' ', '0', ' ', '0', ' ', '0', ' ', '0', ' ', '0']);
    }
    assert(dec_join(b.take(21)) == seq!['0', ' ', '0', ' ', '0', ' ', '0', ' ', '0', ' ', '0', ' ', '0', ' ', '0', ' ', '0', ' ', '0', ' ', '0', ' ', '0', ' ', '0', ' ', '0', ' ', '0', ' ', '0', ' ', '0', ' ', '0', ' ', '0', ' ', '0', ' ', '0']) by {
        lemma_dec_join_step(b, 20);
        assert(seq!['0', ' ', '0', ' ', '0', ' ', '0', ' ', '0', ' ', '0', ' ', '0', ' ', '0', ' ', '0', ' ', '0', ' ', '0', ' ', '0', ' ', '0', ' ', '0', ' ', '0', ' ', '0', ' ', '0', ' ', '0', ' ', '0', ' ', '0'] + seq![' '] + dec_digits(b[20] as nat) =~= seq!['0', ' ', '0', ' ', '0', ' ', '0', ' ', '0', ' ', '0', ' ', '0', ' ', '0', ' ', '0', ' ', '0', ' ', '0', ' ', '0', ' ', '0', ' ', '0', ' ', '0', ' ', '0', ' ', '0', ' ', '0', ' ', '0', ' ', '0', ' ', '0']);
    }
    assert(dec_join(b.take(22)) == seq!['0', ' ', '0', ' ', '0', ' ', '0', ' ', '0', ' ', '0', ' ', '0', ' ', '0', ' ', '0', ' ', '0', ' ', '0', ' ', '0', ' ', '0', ' ', '0', ' ', '0', ' ', '0', ' ', '0', ' ', '0', ' ', '0', ' ', '0', ' ', '0', ' ', '0']) by {
        lemma_dec_join_step(b, 21);
        assert(seq!['0', ' ', '0', ' ', '0', ' ', '0', ' ', '0', ' ', '0', ' ', '0', ' ', '0', ' ', '0', ' ', '0', ' ', '0', ' ', '0', ' ', '0', ' ', '0', ' ', '0', ' ', '0', ' ', '0', ' ', '0', ' ', '0', ' ', '0', ' ', '0'] + seq![' '] + dec_digits(b[21] as nat) =~= seq!['0', ' ', '0', ' ', '0', ' ', '0', ' ', '0', ' ', '0', ' ', '0', ' ', '0', ' ', '0', ' ', '0', ' ', '0', ' ', '0', ' ', '0', ' ', '0', ' ', '0', ' ', '0', ' ', '0', ' ', '0', ' ', '0', ' ', '0', ' ', '0', ' ', '0']);
    }
    assert(dec_join(b.take(23)) == seq!['0', ' ', '0', ' ', '0', ' ', '0', ' ', '0', ' ', '0', ' ', '0', ' ', '0', ' ', '0', ' ', '0', ' ', '0', ' ', '0', ' ', '0', ' ', '0', ' ', '0', ' ', '0', ' ', '0', ' ', '0', ' ', '0', ' ', '0', ' ', '0', ' ', '0', ' ', '0']) by {
        lemma_dec_join_step(b, 22);
        assert(seq!['0', ' ', '0', ' ', '0', ' ', '0', ' ', '0', ' ', '0', ' ', '0', ' ', '0', ' ', '0', ' ', '0', ' ', '0', ' ', '0', ' ', '0', ' ', '0', ' ', '0', ' ', '0', ' ', '0', ' ', '0', ' ', '0', ' ', '0', ' ', '0', ' ', '0'] + seq![' '] + dec_digits(b[22] as nat) =~= seq!['0', ' ', '0', ' ', '0', ' ', '0', ' ', '0', ' ', '0', ' ', '0', ' ', '0', ' ', '0', ' ', '0', ' ', '0', ' ', '0', ' ', '0', ' ', '0', ' ', '0', ' ', '0', ' ', '0', ' ', '0', ' ', '0', ' ', '0', ' ', '0', ' ', '0', ' ', '0']);
    }
    assert(dec_join(b.take(24)) == seq!['0', ' ', '0', ' ', '0', ' ', '0', ' ', '0', ' ', '0', ' ', '0', ' ', '0', ' ', '0', ' ', '0', ' ', '0', ' ', '0', ' ', '0', ' ', '0', ' ', '0', ' ', '0', ' ', '0', ' ', '0', ' ', '0', ' ', '0', ' ', '0', ' ', '0', ' ', '0', ' ', '0']) by {
        lemma_dec_join_step(b, 23);
        assert(seq!['0', ' ', '0', ' ', '0', ' ', '0', ' ', '0', ' ', '0', ' ', '0', ' ', '0', ' ', '0', ' ', '0', ' ', '0', ' ', '0', ' ', '0', ' ', '0', ' ', '0', ' ', '0', ' ', '0', ' ', '0', ' ', '0', ' ', '0', ' ', '0', ' ', '0', ' ', '0'] + seq![' '] + dec_digits(b[23] as nat) =~= seq!['0', ' ', '0', ' ', '0', ' ', '0', ' ', '0', ' ', '0', ' ', '0', ' ', '0', ' ', '0', ' ', '0', ' ', '0', ' ', '0', ' ', '0', ' ', '0', ' ', '0', ' ', '0', ' ', '0', ' ', '0', ' ', '0', ' ', '0', ' ', '0', ' ', '0', ' ', '0', ' ', '0']);
    }
    assert(b.take(24) =~= b);
    assert(dec_join(b) == "0 0 0 0 0 0 0 0 0 0 0 0 0 0 0 0 0 0 0 0 0 0 0 0"@) by {
        reveal_strlit("0 0 0 0 0 0 0 0 0 0 0 0 0 0 0 0 0 0 0 0 0 0 0 0");
    }
    law_space_dec_roundtrip(b);
}

proof fn lemma_payload_zeros17()
    ensures
        space_dec("0 0 0 0 0 0 0 0 0 0 0 0 0 0 0 0 0"@) == Ok::<Seq<u8>, Seq<char>>(seq![0u8, 0u8, 0u8, 0u8, 0u8, 0u8, 0u8, 0u8, 0u8, 0u8, 0u8, 0u8, 0u8, 0u8, 0u8, 0u8, 0u8]),
{
    let b: Seq<u8> = seq![0u8, 0u8, 0u8, 0u8, 0u8, 0u8, 0u8, 0u8, 0u8, 0u8, 0u8, 0u8, 0u8, 0u8, 0u8, 0u8, 0u8];
    lemma_decimal_texts();
    assert(dec_join(b.take(1)) == seq!['0']) by {
        lemma_dec_join_first(b);
    }
    assert(dec_join(b.take(2)) == seq!['0', ' ', '0']) by {
        lemma_dec_join_step(b, 1);
        assert(seq!['0'] + seq![' '] + dec_digits(b[1] as nat) =~= seq!['0', ' ', '0']);
    }
    assert(dec_join(b.take(3)) == seq!['0', ' ', '0', ' ', '0']) by {
        lemma_dec_join_step(b, 2);
        assert(seq!['0', ' ', '0'] + seq![' '] + dec_digits(b[2] as nat) =~= seq!['0', ' ', '0', ' ', '0']);
    }
    assert(dec_join(b.take(4)) == seq!['0', ' ', '0', ' ', '0', ' ', '0']) by {
        lemma_dec_join_step(b, 3);
        assert(seq!['0', ' ', '0', ' ', '0'] + seq![' '] + dec_digits(b[3] as nat) =~= seq!['0', ' ', '0', ' ', '0', ' ', '0']);
    }
    assert(dec_join(b.take(5)) == seq!['0', ' ', '0', ' ', '0', ' ', '0', ' ', '0']) by {
        lemma_dec_join_step(b, 4);
        assert(seq!['0', ' ', '0', ' ', '0', ' ', '0'] + seq![' '] + dec_digits(b[4] as nat) =~= seq!['0', ' ', '0', ' ', '0', ' ', '0', ' ', '0']);
    }
    assert(dec_join(b.take(6)) == seq!['0', ' ', '0', ' ', '0', ' ', '0', ' ', '0', ' ', '0']) by {
        lemma_dec_join_step(b, 5);
        assert(seq!['0', ' ', '0', ' ', '0', ' ', '0', ' ', '0'] + seq![' '] + dec_digits(b[5] as nat) =~= seq!['0', ' ', '0', ' ', '0', ' ', '0', ' ', '0', ' ', '0']);
    }
    assert(dec_join(b.take(7)) == seq!['0', ' ', '0', ' ', '0', ' ', '0', ' ', '0', ' ', '0', ' ', '0']) by {
        lemma_dec_join_step(b, 6);
        assert(seq!['0', ' ', '0', ' ', '0', ' ', '0', ' ', '0', ' ', '0'] + seq![' '] + dec_digits(b[6] as nat) =~= seq!['0', ' ', '0', ' ', '0', ' ', '0', ' ', '0', ' ', '0', ' ', '0']);
    }
    assert(dec_join(b.take(8)) == seq!['0', ' ', '0', ' ', '0', ' ', '0', ' ', '0', ' ', '0', ' ', '0', ' ', '0']) by {
        lemma_dec_join_step(b, 7);
        assert(seq!['0', ' ', '0', ' ', '0', ' ', '0', ' ', '0', ' ', '0', ' ', '0'] + seq![' '] + dec_digits(b[7] as nat) =~= seq!['0', ' ', '0', ' ', '0', ' ', '0', ' ', '0', ' ', '0', ' ', '0', ' ', '0']);
    }
    assert(dec_join(b.take(9)) == seq!['0', ' ', '0', ' ', '0', ' ', '0', ' ', '0', ' ', '0', ' ', '0', ' ', '0', ' ', '0']) by {
        lemma_dec_join_step(b, 8);
        assert(seq!['0', ' ', '0', ' ', '0', ' ', '0', ' ', '0', ' ', '0', ' ', '0', ' ', '0'] + seq![' '] + dec_digits(b[8] as nat) =~= seq!['0', ' ', '0', ' ', '0', ' ', '0', ' ', '0', ' ', '0', ' ', '0', ' ', '0', ' ', '0']);
    }
    assert(dec_join(b.take(10)) == seq!['0', ' ', '0', ' ', '0', ' ', '0', ' ', '0', ' ', '0', ' ', '0', ' ', '0', ' ', '0', ' ', '0']) by {
        lemma_dec_join_step(b, 9);
        assert(seq!['0', ' ', '0', ' ', '0', ' ', '0', ' ', '0', ' ', '0', ' ', '0', ' ', '0', ' ', '0'] + seq![' '] + dec_digits(b[9] as nat) =~= seq!['0', ' ', '0', ' ', '0', ' ', '0', ' ', '0', ' ', '0', ' ', '0', ' ', '0', ' ', '0', ' ', '0']);
    }
    assert(dec_join(b.take(11)) == seq!['0', ' ', '0', ' ', '0', ' ', '0', ' ', '0', ' ', '0', ' ', '0', ' ', '0', ' ', '0', ' ', '0', ' ', '0']) by {
        lemma_dec_join_step(b, 10);
        assert(seq!['0', ' ', '0', ' ', '0', ' ', '0', ' ', '0', ' ', '0', ' ', '0', ' ', '0', ' ', '0', ' ', '0'] + seq![' '] + dec_digits(b[10] as nat) =~= seq!['0', ' ', '0', ' ', '0', ' ', '0', ' ', '0', ' ', '0', ' ', '0', ' ', '0', ' ', '0', ' ', '0', ' ', '0']);
    }
    assert(dec_join(b.take(12)) == seq!['0', ' ', '0', ' ', '0', ' ', '0', ' ', '0', ' ', '0', ' ', '0', ' ', '0', ' ', '0', ' ', '0', ' ', '0', ' ', '0']) by {
        lemma_dec_join_step(b, 11);
        assert(seq!['0', ' ', '0', ' ', '0', ' ', '0', ' ', '0', ' ', '0', ' ', '0', ' ', '0', ' ', '0', ' ', '0', ' ', '0'] + seq![' '] + dec_digits(b[11] as nat) =~= seq!['0', ' ', '0', ' ', '0', ' ', '0', ' ', '0', ' ', '0', ' ', '0', ' ', '0', ' ', '0', ' ', '0', ' ', '0', ' ', '0']);
    }
    assert(dec_join(b.take(13)) == seq!['0', ' ', '0', ' ', '0', ' ', '0', ' ', '0', ' ', '0', ' ', '0', ' ', '0', ' ', '0', ' ', '0', ' ', '0', ' ', '0', ' ', '0']) by {
        lemma_dec_join_step(b, 12);
        assert(seq!['0', ' ', '0', ' ', '0', ' ', '0', ' ', '0', ' ', '0', ' ', '0', ' ', '0', ' ', '0', ' ', '0', ' ', '0', ' ', '0'] + seq![' '] + dec_digits(b[12] as nat) =~= seq!['0', ' ', '0', ' ', '0', ' ', '0', ' ', '0', ' ', '0', ' ', '0', ' ', '0', ' ', '0', ' ', '0', ' ', '0', ' ', '0', ' ', '0']);
    }
    assert(dec_join(b.take(14)) == seq!['0', ' ', '0', ' ', '0', ' ', '0', ' ', '0', ' ', '0', ' ', '0', ' ', '0', ' ', '0', ' ', '0', ' ', '0', ' ', '0', ' ', '0', ' ', '0']) by {
        lemma_dec_join_step(b, 13);
        assert(seq!['0', ' ', '0', ' ', '0', ' ', '0', ' ', '0', ' ', '0', ' ', '0', ' ', '0', ' ', '0', ' ', '0', ' ', '0', ' ', '0', ' ', '0'] + seq![' '] + dec_digits(b[13] as nat) =~= seq!['0', ' ', '0', ' ', '0', ' ', '0', ' ', '0', ' ', '0', ' ', '0', ' ', '0', ' ', '0', ' ', '0', ' ', '0', ' ', '0', ' ', '0', ' ', '0']);
    }
    assert(dec_join(b.take(15)) == seq!['0', ' ', '0', ' ', '0', ' ', '0', ' ', '0', ' ', '0', ' ', '0', ' ', '0', ' ', '0', ' ', '0', ' ', '0', ' ', '0', ' ', '0', ' ', '0', ' ', '0']) by {
        lemma_dec_join_step(b, 14);
        assert(seq!['0', ' ', '0', ' ', '0', ' ', '0', ' ', '0', ' ', '0', ' ', '0', ' ', '0', ' ', '0', ' ', '0', ' ', '0', ' ', '0', ' ', '0', ' ', '0'] + seq![' '] + dec_digits(b[14] as nat) =~= seq!['0', ' ', '0', ' ', '0', ' ', '0', ' ', '0', ' ', '0', ' ', '0', ' ', '0', ' ', '0', ' ', '0', ' ', '0', ' ', '0', ' ', '0', ' ', '0', ' ', '0']);
    }
    assert(dec_join(b.take(16)) == seq!['0', ' ', '0', ' ', '0', ' ', '0', ' ', '0', ' ', '0', ' ', '0', ' ', '0', ' ', '0', ' ', '0', ' ', '0', ' ', '0', ' ', '0', ' ', '0', ' ', '0', ' ', '0']) by {
        lemma_dec_join_step(b, 15);
        assert(seq!['0', ' ', '0', ' ', '0', ' ', '0', ' ', '0', ' ', '0', ' ', '0', ' ', '0', ' ', '0', ' ', '0', ' ', '0', ' ', '0', ' ', '0', ' ', '0', ' ', '0'] + seq![' '] + dec_digits(b[15] as nat) =~= seq!['0', ' ', '0', ' ', '0', ' ', '0', ' ', '0', ' ', '0', ' ', '0', ' ', '0', ' ', '0', ' ', '0', ' ', '0', ' ', '0', ' ', '0', ' ', '0', ' ', '0', ' ', '0']);
    }
    assert(dec_join(b.take(17)) == seq!['0', ' ', '0', ' ', '0', ' ', '0', ' ', '0', ' ', '0', ' ', '0', ' ', '0', ' ', '0', ' ', '0', ' ', '0', ' ', '0', ' ', '0', ' ', '0', ' ', '0', ' ', '0', ' ', '0']) by {
        lemma_dec_join_step(b, 16);
        assert(seq!['0', ' ', '0', ' ', '0', ' ', '0', ' ', '0', ' ', '0', ' ', '0', ' ', '0', ' ', '0', ' ', '0', ' ', '0', ' ', '0', ' ', '0', ' ', '0', ' ', '0', ' ', '0'] + seq![' '] + dec_digits(b[16] as nat) =~= seq!['0', ' ', '0', ' ', '0', ' ', '0', ' ', '0', ' ', '0', ' ', '0', ' ', '0', ' ', '0', ' ', '0', ' ', '0', ' ', '0', ' ', '0', ' ', '0', ' ', '0', ' ', '0', ' ', '0']);
    }
    assert(b.take(17) =~= b);
    assert(dec_join(b) == "0 0 0 0 0 0 0 0 0 0 0 0 0 0 0 0 0"@) by {
        reveal_strlit("0 0 0 0 0 0 0 0 0 0 0 0 0 0 0 0 0");
    }
    law_space_dec_roundtrip(b);
}

proof fn lemma_payload_zeros3()
    ensures
        space_dec("0 0 0"@) == Ok::<Seq<u8>, Seq<char>>(seq![0u8, 0u8, 0u8]),
{
    let b: Seq<u8> = seq![0u8, 0u8, 0u8];
    lemma_decimal_texts();
    assert(dec_join(b.take(1)) == seq!['0']) by {
        lemma_dec_join_first(b);
    }
    assert(dec_join(b.take(2)) == seq!['0', ' ', '0']) by {
        lemma_dec_join_step(b, 1);
        assert(seq!['0'] + seq![' '] + dec_digits(b[1] as nat) =~= seq!['0', ' ', '0']);
    }
    assert(dec_join(b.take(3)) == seq!['0', ' ', '0', ' ', '0']) by {
        lemma_dec_join_step(b, 2);
        assert(seq!['0', ' ', '0'] + seq![' '] + dec_digits(b[2] as nat) =~= seq!['0', ' ', '0', ' ', '0']);
    }
    assert(b.take(3) =~= b);
    assert(dec_join(b) == "0 0 0"@) by {
        reveal_strlit("0 0 0");
    }
    law_space_dec_roundtrip(b);
}

#[verifier::spinoff_prover]
#[verifier::rlimit(80)]
proof fn lemma_payload_ul_mimo()
    ensures
        space_dec("1 1 0 0 0 0 0 0 0 0 0 0 0 0 0 0 0 0 0 0 0 0 0 0 0 0 0 0 0 0 0 0 0 0 0 0 0 0 0 0 0 0 0 0"@) == Ok::<Seq<u8>, Seq<char>>(seq![1u8, 1u8, 0u8, 0u8, 0u8, 0u8, 0u8, 0u8, 0u8, 0u8, 0u8, 0u8, 0u8, 0u8, 0u8, 0u8, 0u8, 0u8, 0u8, 0u8, 0u8, 0u8, 0u8, 0u8, 0u8, 0u8, 0u8, 0u8, 0u8, 0u8, 0u8, 0u8, 0u8, 0u8, 0u8, 0u8, 0u8, 0u8, 0u8, 0u8, 0u8, 0u8, 0u8, 0u8]),
{
    let b: Seq<u8> = seq![1u8, 1u8, 0u8, 0u8, 0u8, 0u8, 0u8, 0u8, 0u8, 0u8, 0u8, 0u8, 0u8, 0u8, 0u8, 0u8, 0u8, 0u8, 0u8, 0u8, 0u8, 0u8, 0u8, 0u8, 0u8, 0u8, 0u8, 0u8, 0u8, 0u8, 0u8, 0u8, 0u8, 0u8, 0u8, 0u8, 0u8, 0u8, 0u8, 0u8, 0u8, 0u8, 0u8, 0u8];
    lemma_decimal_texts();
    assert(dec_join(b.take(1)) == seq!['1']) by {
        lemma_dec_join_first(b);
    }
    assert(dec_join(b.take(2)) == seq!['1', ' ', '1']) by {
        lemma_dec_join_step(b, 1);
        assert(seq!['1'] + seq![' '] + dec_digits(b[1] as nat) =~= seq!['1', ' ', '1']);
    }
    assert(dec_join(b.take(3)) == seq!['1', ' ', '1', ' ', '0']) by {
        lemma_dec_join_step(b, 2);
        assert(seq!['1', ' ', '1'] + seq![' '] + dec_digits(b[2] as nat) =~= seq!['1', ' ', '1', ' ', '0']);
    }
    assert(dec_join(b.take(4)) == seq!['1', ' ', '1', ' ', '0', ' ', '0']) by {
        lemma_dec_join_step(b, 3);
        assert(seq!['1', ' ', '1', ' ', '0'] + seq![' '] + dec_digits(b[3] as nat) =~= seq!['1', ' ', '1', ' ', '0', ' ', '0']);
    }
    assert(dec_join(b.take(5)) == seq!['1', ' ', '1', ' ', '0', ' ', '0', ' ', '0']) by {
        lemma_dec_join_step(b, 4);
        assert(seq!['1', ' ', '1', ' ', '0', ' ', '0'] + seq![' '] + dec_digits(b[4] as nat) =~= seq!['1', ' ', '1', ' ', '0', ' ', '0', ' ', '0']);
    }
    assert(dec_join(b.take(6)) == seq!['1', ' ', '1', ' ', '0', ' ', '0', ' ', '0', ' ', '0']) by {
        lemma_dec_join_step(b, 5);
        assert(seq!['1', ' ', '1', ' ', '0', ' ', '0', ' ', '0'] + seq![' '] + dec_digits(b[5] as nat) =~= seq!['1', ' ', '1', ' ', '0', ' ', '0', ' ', '0', ' ', '0']);
    }
    assert(dec_join(b.take(7)) == seq!['1', ' ', '1', ' ', '0', ' ', '0', ' ', '0', ' ', '0', ' ', '0']) by {
        lemma_dec_join_step(b, 6);
        assert(seq!['1', ' ', '1', ' ', '0', ' ', '0', ' ', '0', ' ', '0'] + seq![' '] + dec_digits(b[6] as nat) =~= seq!['1', ' ', '1', ' ', '0', ' ', '0', ' ', '0', ' ', '0', ' ', '0']);
    }
    assert(dec_join(b.take(8)) == seq!['1', ' ', '1', ' ', '0', ' ', '0', ' ', '0', ' ', '0', ' ', '0', ' ', '0']) by {
        lemma_dec_join_step(b, 7);
        assert(seq!['1', ' ', '1', ' ', '0', ' ', '0', ' ', '0', ' ', '0', ' ', '0'] + seq![' '] + dec_digits(b[7] as nat) =~= seq!['1', ' ', '1', ' ', '0', ' ', '0', ' ', '0', ' ', '0', ' ', '0', ' ', '0']);
    }
    assert(dec_join(b.take(9)) == seq!['1', ' ', '1', ' ', '0', ' ', '0', ' ', '0', ' ', '0', ' ', '0', ' ', '0', ' ', '0']) by {
        lemma_dec_join_step(b, 8);
        assert(seq!['1', ' ', '1', ' ', '0', ' ', '0', ' ', '0', ' ', '0', ' ', '0', ' ', '0'] + seq![' '] + dec_digits(b[8] as nat) =~= seq!['1', ' ', '1', ' ', '0', ' ', '0', ' ', '0', ' ', '0', ' ', '0', ' ', '0', ' ', '0']);
    }
    assert(dec_join(b.take(10)) == seq!['1', ' ', '1', ' ', '0', ' ', '0', ' ', '0', ' ', '0', ' ', '0', ' ', '0', ' ', '0', ' ', '0']) by {
        lemma_dec_join_step(b, 9);
        assert(seq!['1', ' ', '1', ' ', '0', ' ', '0', ' ', '0', ' ', '0', ' ', '0', ' ', '0', ' ', '0'] + seq![' '] + dec_digits(b[9] as nat) =~= seq!['1', ' ', '1', ' ', '0', ' ', '0', ' ', '0', ' ', '0', ' ', '0', ' ', '0', ' ', '0', ' ', '0']);
    }
    assert(dec_join(b.take(11)) == seq!['1', ' ', '1', ' ', '0', ' ', '0', ' ', '0', ' ', '0', ' ', '0', ' ', '0', ' ', '0', ' ', '0', ' ', '0']) by {
        lemma_dec_join_step(b, 10);
        assert(seq!['1', ' ', '1', ' ', '0', ' ', '0', ' ', '0', ' ', '0', ' ', '0', ' ', '0', ' ', '0', ' ', '0'] + seq![' '] + dec_digits(b[10] as nat) =~= seq!['1', ' ', '1', ' ', '0', ' ', '0', ' ', '0', ' ', '0', ' ', '0', ' ', '0', ' ', '0', ' ', '0', ' ', '0']);
    }
    assert(dec_join(b.take(12)) == seq!['1', ' ', '1', ' ', '0', ' ', '0', ' ', '0', ' ', '0', ' ', '0', ' ', '0', ' ', '0', ' ', '0', ' ', '0', ' ', '0']) by {
        lemma_dec_join_step(b, 11);
        assert(seq!['1', ' ', '1', ' ', '0', ' ', '0', ' ', '0', ' ', '0', ' ', '0', ' ', '0', ' ', '0', ' ', '0', ' ', '0'] + seq![' '] + dec_digits(b[11] as nat) =~= seq!['1', ' ', '1', ' ', '0', ' ', '0', ' ', '0', ' ', '0', ' ', '0', ' ', '0', ' ', '0', ' ', '0', ' ', '0', ' ', '0']);
    }
    assert(dec_join(b.take(13)) == seq!['1', ' ', '1', ' ', '0', ' ', '0', ' ', '0', ' ', '0', ' ', '0', ' ', '0', ' ', '0', ' ', '0', ' ', '0', ' ', '0', ' ', '0']) by {
        lemma_dec_join_step(b, 12);
        assert(seq!['1', ' ', '1', ' ', '0', ' ', '0', ' ', '0', ' ', '0', ' ', '0', ' ', '0', ' ', '0', ' ', '0', ' ', '0', ' ', '0'] + seq![' '] + dec_digits(b[12] as nat) =~= seq!['1', ' ', '1', ' ', '0', ' ', '0', ' ', '0', ' ', '0', ' ', '0', ' ', '0', ' ', '0', ' ', '0', ' ', '0', ' ', '0', ' ', '0']);
    }
    assert(dec_join(b.take(14)) == seq!['1', ' ', '1', ' ', '0', ' ', '0', ' ', '0', ' ', '0', ' ', '0', ' ', '0', ' ', '0', ' ', '0', ' ', '0', ' ', '0', ' ', '0', ' ', '0']) by {
        lemma_dec_join_step(b, 13);
        assert(seq!['1', ' ', '1', ' ', '0', ' ', '0', ' ', '0', ' ', '0', ' ', '0', ' ', '0', ' ', '0', ' ', '0', ' ', '0', ' ', '0', ' ', '0'] + seq![' '] + dec_digits(b[13] as nat) =~= seq!['1', ' ', '1', ' ', '0', ' ', '0', ' ', '0', ' ', '0', ' ', '0', ' ', '0', ' ', '0', ' ', '0', ' ', '0', ' ', '0', ' ', '0', ' ', '0']);
    }
    assert(dec_join(b.take(15)) == seq!['1', ' ', '1', ' ', '0', ' ', '0', ' ', '0', ' ', '0', ' ', '0', ' ', '0', ' ', '0', ' ', '0', ' ', '0', ' ', '0', ' ', '0', ' ', '0', ' ', '0']) by {
        lemma_dec_join_step(b, 14);
        assert(seq!['1', ' ', '1', ' ', '0', ' ', '0', ' ', '0', ' ', '0', ' ', '0', ' ', '0', ' ', '0', ' ', '0', ' ', '0', ' ', '0', ' ', '0', ' ', '0'] + seq![' '] + dec_digits(b[14] as nat) =~= seq!['1', ' ', '1', ' ', '0', ' ', '0', ' ', '0', ' ', '0', ' ', '0', ' ', '0', ' ', '0', ' ', '0', ' ', '0', ' ', '0', ' ', '0', ' ', '0', ' ', '0']);
    }
    assert(dec_join(b.take(16)) == seq!['1', ' ', '1', ' ', '0', ' ', '0', ' ', '0', ' ', '0', ' ', '0', ' ', '0', ' ', '0', ' ', '0', ' ', '0', ' ', '0', ' ', '0', ' ', '0', ' ', '0', ' ', '0']) by {
        lemma_dec_join_step(b, 15);
        assert(seq!['1', ' ', '1', ' ', '0', ' ', '0', ' ', '0', ' ', '0', ' ', '0', ' ', '0', ' ', '0', ' ', '0', ' ', '0', ' ', '0', ' ', '0', ' ', '0', ' ', '0'] + seq![' '] + dec_digits(b[15] as nat) =~= seq!['1', ' ', '1', ' ', '0', ' ', '0', ' ', '0', ' ', '0', ' ', '0', ' ', '0', ' ', '0', ' ', '0', ' ', '0', ' ', '0', ' ', '0', ' ', '0', ' ', '0', ' ', '0']);
    }
    assert(dec_join(b.take(17)) == seq!['1', ' ', '1', ' ', '0', ' ', '0', ' ', '0', ' ', '0', ' ', '0', ' ', '0', ' ', '0', ' ', '0', ' ', '0', ' ', '0', ' ', '0', ' ', '0', ' ', '0', ' ', '0', ' ', '0']) by {
        lemma_dec_join_step(b, 16);
        assert(seq!['1', ' ', '1', ' ', '0', ' ', '0', ' ', '0', ' ', '0', ' ', '0', ' ', '0', ' ', '0', ' ', '0', ' ', '0', ' ', '0', ' ', '0', ' ', '0', ' ', '0', ' ', '0'] + seq![' '] + dec_digits(b[16] as nat) =~= seq!['1', ' ', '1', ' ', '0', ' ', '0', ' ', '0', ' ', '0', ' ', '0', ' ', '0', ' ', '0', ' ', '0', ' ', '0', ' ', '0', ' ', '0', ' ', '0', ' ', '0', ' ', '0', ' ', '0']);
    }
    assert(dec_join(b.take(18)) == seq!['1', ' ', '1', ' ', '0', ' ', '0', ' ', '0', ' ', '0', ' ', '0', ' ', '0', ' ', '0', ' ', '0', ' ', '0', ' ', '0', ' ', '0', ' ', '0', ' ', '0', ' ', '0', ' ', '0', ' ', '0']) by {
        lemma_dec_join_step(b, 17);
        assert(seq!['1', ' ', '1', ' ', '0', ' ', '0', ' ', '0', ' ', '0', ' ', '0', ' ', '0', ' ', '0', ' ', '0', ' ', '0', ' ', '0', ' ', '0', ' ', '0', ' ', '0', ' ', '0', ' ', '0'] + seq![' '] + dec_digits(b[17] as nat) =~= seq!['1', ' ', '1', ' ', '0', ' ', '0', ' ', '0', ' ', '0', ' ', '0', ' ', '0', ' ', '0', ' ', '0', ' ', '0', ' ', '0', ' ', '0', ' ', '0', ' ', '0', ' ', '0', ' ', '0', ' ', '0']);
    }
    assert(dec_join(b.take(19)) == seq!['1', ' ', '1', ' ', '0', ' ', '0', ' ', '0', ' ', '0', ' ', '0', ' ', '0', ' ', '0', ' ', '0', ' ', '0', ' ', '0', ' ', '0', ' ', '0', ' ', '0', ' ', '0', ' ', '0', ' ', '0', ' ', '0']) by {
        lemma_dec_join_step(b, 18);
        assert(seq!['1', ' ', '1', ' ', '0', ' ', '0', ' ', '0', ' ', '0', ' ', '0', ' ', '0', ' ', '0', ' ', '0', ' ', '0', ' ', '0', ' ', '0', ' ', '0', ' ', '0', ' ', '0', ' ', '0', ' ', '0'] + seq![' '] + dec_digits(b[18] as nat) =~= seq!['1', ' ', '1', ' ', '0', ' ', '0', ' ', '0', ' ', '0', ' ', '0', ' ', '0', ' ', '0', ' ', '0', ' ', '0', ' ', '0', ' ', '0', ' ', '0', ' ', '0', ' ', '0', ' ', '0', ' ', '0', ' ', '0']);
    }
    assert(dec_join(b.take(20)) == seq!['1', ' ', '1', ' ', '0', ' ', '0', ' ', '0', ' ', '0', ' ', '0', ' ', '0', ' ', '0', ' ', '0', ' ', '0', ' ', '0', ' ', '0', ' ', '0', ' ', '0', ' ', '0', ' ', '0', ' ', '0', ' ', '0', ' ', '0']) by {
        lemma_dec_join_step(b, 19);
        assert(seq!['1', ' ', '1', ' ', '0', ' ', '0', ' ', '0', ' ', '0', ' ', '0', ' ', '0', ' ', '0', ' ', '0', ' ', '0', ' ', '0', ' ', '0', ' ', '0', ' ', '0', ' ', '0', ' ', '0', ' ', '0', ' ', '0'] + seq![' '] + dec_digits(b[19] as nat) =~= seq!['1', ' ', '1', ' ', '0', ' ', '0', ' ', '0', ' ', '0', ' ', '0', ' ', '0', ' ', '0', ' ', '0', ' ', '0', ' ', '0', ' ', '0', ' ', '0', ' ', '0', ' ', '0', ' ', '0', ' ', '0', ' ', '0', ' ', '0']);
    }
    assert(dec_join(b.take(21)) == seq!['1', ' ', '1', ' ', '0', ' ', '0', ' ', '0', ' ', '0', ' ', '0', ' ', '0', ' ', '0', ' ', '0', ' ', '0', ' ', '0', ' ', '0', ' ', '0', ' ', '0', ' ', '0', ' ', '0', ' ', '0', ' ', '0', ' ', '0', ' ', '0']) by {
        lemma_dec_join_step(b, 20);
        assert(seq!['1', ' ', '1', ' ', '0', ' ', '0', ' ', '0', ' ', '0', ' ', '0', ' ', '0', ' ', '0', ' ', '0', ' ', '0', ' ', '0', ' ', '0', ' ', '0', ' ', '0', ' ', '0', ' ', '0', ' ', '0', ' ', '0', ' ', '0'] + seq![' '] + dec_digits(b[20] as nat) =~= seq!['1', ' ', '1', ' ', '0', ' ', '0', ' ', '0', ' ', '0', ' ', '0', ' ', '0', ' ', '0', ' ', '0', ' ', '0', ' ', '0', ' ', '0', ' ', '0', ' ', '0', ' ', '0', ' ', '0', ' ', '0', ' ', '0', ' ', '0', ' ', '0']);
    }
    assert(dec_join(b.take(22)) == seq!['1', ' ', '1', ' ', '0', ' ', '0', ' ', '0', ' ', '0', ' ', '0', ' ', '0', ' ', '0', ' ', '0', ' ', '0', ' ', '0', ' ', '0', ' ', '0', ' ', '0', ' ', '0', ' ', '0', ' ', '0', ' ', '0', ' ', '0', ' ', '0', ' ', '0']) by {
        lemma_dec_join_step(b, 21);
        assert(seq!['1', ' ', '1', ' ', '0', ' ', '0', ' ', '0', ' ', '0', ' ', '0', ' ', '0', ' ', '0', ' ', '0', ' ', '0', ' ', '0', ' ', '0', ' ', '0', ' ', '0', ' ', '0', ' ', '0', ' ', '0', ' ', '0', ' ', '0', ' ', '0'] + seq![' '] + dec_digits(b[21] as nat) =~= seq!['1', ' ', '1', ' ', '0', ' ', '0', ' ', '0', ' ', '0', ' ', '0', ' ', '0', ' ', '0', ' ', '0', ' ', '0', ' ', '0', ' ', '0', ' ', '0', ' ', '0', ' ', '0', ' ', '0', ' ', '0', ' ', '0', ' ', '0', ' ', '0', ' ', '0']);
    }
    assert(dec_join(b.take(23)) == seq!['1', ' ', '1', ' ', '0', ' ', '0', ' ', '0', ' ', '0', ' ', '0', ' ', '0', ' ', '0', ' ', '0', ' ', '0', ' ', '0', ' ', '0', ' ', '0', ' ', '0', ' ', '0', ' ', '0', ' ', '0', ' ', '0', ' ', '0', ' ', '0', ' ', '0', ' ', '0']) by {
        lemma_dec_join_step(b, 22);
        assert(seq!['1', ' ', '1', ' ', '0', ' ', '0', ' ', '0', ' ', '0', ' ', '0', ' ', '0', ' ', '0', ' ', '0', ' ', '0', ' ', '0', ' ', '0', ' ', '0', ' ', '0', ' ', '0', ' ', '0', ' ', '0', ' ', '0', ' ', '0', ' ', '0', ' ', '0'] + seq![' '] + dec_digits(b[22] as nat) =~= seq!['1', ' ', '1', ' ', '0', ' ', '0', ' ', '0', ' ', '0', ' ', '0', ' ', '0', ' ', '0', ' ', '0', ' ', '0', ' ', '0', ' ', '0', ' ', '0', ' ', '0', ' ', '0', ' ', '0', ' ', '0', ' ', '0', ' ', '0', ' ', '0', ' ', '0', ' ', '0']);
    }
    assert(dec_join(b.take(24)) == seq!['1', ' ', '1', ' ', '0', ' ', '0', ' ', '0', ' ', '0', ' ', '0', ' ', '0', ' ', '0', ' ', '0', ' ', '0', ' ', '0', ' ', '0', ' ', '0', ' ', '0', ' ', '0', ' ', '0', ' ', '0', ' ', '0', ' ', '0', ' ', '0', ' ', '0', ' ', '0', ' ', '0']) by {
        lemma_dec_join_step(b, 23);
        assert(seq!['1', ' ', '1', ' ', '0', ' ', '0', ' ', '0', ' ', '0', ' ', '0', ' ', '0', ' ', '0', ' ', '0', ' ', '0', ' ', '0', ' ', '0', ' ', '0', ' ', '0', ' ', '0', ' ', '0', ' ', '0', ' ', '0', ' ', '0', ' ', '0', ' ', '0', ' ', '0'] + seq![' '] + dec_digits(b[23] as nat) =~= seq!['1', ' ', '1', ' ', '0', ' ', '0', ' ', '0', ' ', '0', ' ', '0', ' ', '0', ' ', '0', ' ', '0', ' ', '0', ' ', '0', ' ', '0', ' ', '0', ' ', '0', ' ', '0', ' ', '0', ' ', '0', ' ', '0', ' ', '0', ' ', '0', ' ', '0', ' ', '0', ' ', '0']);
    }
    assert(dec_join(b.take(25)) == seq!['1', ' ', '1', ' ', '0', ' ', '0', ' ', '0', ' ', '0', ' ', '0', ' ', '0', ' ', '0', ' ', '0', ' ', '0', ' ', '0', ' ', '0', ' ', '0', ' ', '0', ' ', '0', ' ', '0', ' ', '0', ' ', '0', ' ', '0', ' ', '0', ' ', '0', ' ', '0', ' ', '0', ' ', '0']) by {
        lemma_dec_join_step(b, 24);
        assert(seq!['1', ' ', '1', ' ', '0', ' ', '0', ' ', '0', ' ', '0', ' ', '0', ' ', '0', ' ', '0', ' ', '0', ' ', '0', ' ', '0', ' ', '0', ' ', '0', ' ', '0', ' ', '0', ' ', '0', ' ', '0', ' ', '0', ' ', '0', ' ', '0', ' ', '0', ' ', '0', ' ', '0'] + seq![' '] + dec_digits(b[24] as nat) =~= seq!['1', ' ', '1', ' ', '0', ' ', '0', ' ', '0', ' ', '0', ' ', '0', ' ', '0', ' ', '0', ' ', '0', ' ', '0', ' ', '0', ' ', '0', ' ', '0', ' ', '0', ' ', '0', ' ', '0', ' ', '0', ' ', '0', ' ', '0', ' ', '0', ' ', '0', ' ', '0', ' ', '0', ' ', '0']);
    }
    assert(dec_join(b.take(26)) == seq!['1', ' ', '1', ' ', '0', ' ', '0', ' ', '0', ' ', '0', ' ', '0', ' ', '0', ' ', '0', ' ', '0', ' ', '0', ' ', '0', ' ', '0', ' ', '0', ' ', '0', ' ', '0', ' ', '0', ' ', '0', ' ', '0', ' ', '0', ' ', '0', ' ', '0', ' ', '0', ' ', '0', ' ', '0', ' ', '0']) by {
        lemma_dec_join_step(b, 25);
        assert(seq!['1', ' ', '1', ' ', '0', ' ', '0', ' ', '0', ' ', '0', ' ', '0', ' ', '0', ' ', '0', ' ', '0', ' ', '0', ' ', '0', ' ', '0', ' ', '0', ' ', '0', ' ', '0', ' ', '0', ' ', '0', ' ', '0', ' ', '0', ' ', '0', ' ', '0', ' ', '0', ' ', '0', ' ', '0'] + seq![' '] + dec_digits(b[25] as nat) =~= seq!['1', ' ', '1', ' ', '0', ' ', '0', ' ', '0', ' ', '0', ' ', '0', ' ', '0', ' ', '0', ' ', '0', ' ', '0', ' ', '0', ' ', '0', ' ', '0', ' ', '0', ' ', '0', ' ', '0', ' ', '0', ' ', '0', ' ', '0', ' ', '0', ' ', '0', ' ', '0', ' ', '0', ' ', '0', ' ', '0']);
    }
    assert(dec_join(b.take(27)) == seq!['1', ' ', '1', ' ', '0', ' ', '0', ' ', '0', ' ', '0', ' ', '0', ' ', '0', ' ', '0', ' ', '0', ' ', '0', ' ', '0', ' ', '0', ' ', '0', ' ', '0', ' ', '0', ' ', '0', ' ', '0', ' ', '0', ' ', '0', ' ', '0', ' ', '0', ' ', '0', ' ', '0', ' ', '0', ' ', '0', ' ', '0']) by {
        lemma_dec_join_step(b, 26);
        assert(seq!['1', ' ', '1', ' ', '0', ' ', '0', ' ', '0', ' ', '0', ' ', '0', ' ', '0', ' ', '0', ' ', '0', ' ', '0', ' ', '0', ' ', '0', ' ', '0', ' ', '0', ' ', '0', ' ', '0', ' ', '0', ' ', '0', ' ', '0', ' ', '0', ' ', '0', ' ', '0', ' ', '0', ' ', '0', ' ', '0'] + seq![' '] + dec_digits(b[26] as nat) =~= seq!['1', ' ', '1', ' ', '0', ' ', '0', ' ', '0', ' ', '0', ' ', '0', ' ', '0', ' ', '0', ' ', '0', ' ', '0', ' ', '0', ' ', '0', ' ', '0', ' ', '0', ' ', '0', ' ', '0', ' ', '0', ' ', '0', ' ', '0', ' ', '0', ' ', '0', ' ', '0', ' ', '0', ' ', '0', ' ', '0', ' ', '0']);
    }
    assert(dec_join(b.take(28)) == seq!['1', ' ', '1', ' ', '0', ' ', '0', ' ', '0', ' ', '0', ' ', '0', ' ', '0', ' ', '0', ' ', '0', ' ', '0', ' ', '0', ' ', '0', ' ', '0', ' ', '0', ' ', '0', ' ', '0', ' ', '0', ' ', '0', ' ', '0', ' ', '0', ' ', '0', ' ', '0', ' ', '0', ' ', '0', ' ', '0', ' ', '0', ' ', '0']) by {
        lemma_dec_join_step(b, 27);
        assert(seq!['1', ' ', '1', ' ', '0', ' ', '0', ' ', '0', ' ', '0', ' ', '0', ' ', '0', ' ', '0', ' ', '0', ' ', '0', ' ', '0', ' ', '0', ' ', '0', ' ', '0', ' ', '0', ' ', '0', ' ', '0', ' ', '0', ' ', '0', ' ', '0', ' ', '0', ' ', '0', ' ', '0', ' ', '0', ' ', '0', ' ', '0'] + seq![' '] + dec_digits(b[27] as nat) =~= seq!['1', ' ', '1', ' ', '0', ' ', '0', ' ', '0', ' ', '0', ' ', '0', ' ', '0', ' ', '0', ' ', '0', ' ', '0', ' ', '0', ' ', '0', ' ', '0', ' ', '0', ' ', '0', ' ', '0', ' ', '0', ' ', '0', ' ', '0', ' ', '0', ' ', '0', ' ', '0', ' ', '0', ' ', '0', ' ', '0', ' ', '0', ' ', '0']);
    }
    assert(dec_join(b.take(29)) == seq!['1', ' ', '1', ' ', '0', ' ', '0', ' ', '0', ' ', '0', ' ', '0', ' ', '0', ' ', '0', ' ', '0', ' ', '0', ' ', '0', ' ', '0', ' ', '0', ' ', '0', ' ', '0', ' ', '0', ' ', '0', ' ', '0', ' ', '0', ' ', '0', ' ', '0', ' ', '0', ' ', '0', ' ', '0', ' ', '0', ' ', '0', ' ', '0', ' ', '0']) by {
        lemma_dec_join_step(b, 28);
        assert(seq!['1', ' ', '1', ' ', '0', ' ', '0', ' ', '0', ' ', '0', ' ', '0', ' ', '0', ' ', '0', ' ', '0', ' ', '0', ' ', '0', ' ', '0', ' ', '0', ' ', '0', ' ', '0', ' ', '0', ' ', '0', ' ', '0', ' ', '0', ' ', '0', ' ', '0', ' ', '0', ' ', '0', ' ', '0', ' ', '0', ' ', '0', ' ', '0'] + seq![' '] + dec_digits(b[28] as nat) =~= seq!['1', ' ', '1', ' ', '0', ' ', '0', ' ', '0', ' ', '0', ' ', '0', ' ', '0', ' ', '0', ' ', '0', ' ', '0', ' ', '0', ' ', '0', ' ', '0', ' ', '0', ' ', '0', ' ', '0', ' ', '0', ' ', '0', ' ', '0', ' ', '0', ' ', '0', ' ', '0', ' ', '0', ' ', '0', ' ', '0', ' ', '0', ' ', '0', ' ', '0']);
    }
    assert(dec_join(b.take(30)) == seq!['1', ' ', '1', ' ', '0', ' ', '0', ' ', '0', ' ', '0', ' ', '0', ' ', '0', ' ', '0', ' ', '0', ' ', '0', ' ', '0', ' ', '0', ' ', '0', ' ', '0', ' ', '0', ' ', '0', ' ', '0', ' ', '0', ' ', '0', ' ', '0', ' ', '0', ' ', '0', ' ', '0', ' ', '0', ' ', '0', ' ', '0', ' ', '0', ' ', '0', ' ', '0']) by {
        lemma_dec_join_step(b, 29);
        assert(seq!['1', ' ', '1', ' ', '0', ' ', '0', ' ', '0', ' ', '0', ' ', '0', ' ', '0', ' ', '0', ' ', '0', ' ', '0', ' ', '0', ' ', '0', ' ', '0', ' ', '0', ' ', '0', ' ', '0', ' ', '0', ' ', '0', ' ', '0', ' ', '0', ' ', '0', ' ', '0', ' ', '0', ' ', '0', ' ', '0', ' ', '0', ' ', '0', ' ', '0'] + seq![' '] + dec_digits(b[29] as nat) =~= seq!['1', ' ', '1', ' ', '0', ' ', '0', ' ', '0', ' ', '0', ' ', '0', ' ', '0', ' ', '0', ' ', '0', ' ', '0', ' ', '0', ' ', '0', ' ', '0', ' ', '0', ' ', '0', ' ', '0', ' ', '0', ' ', '0', ' ', '0', ' ', '0', ' ', '0', ' ', '0', ' ', '0', ' ', '0', ' ', '0', ' ', '0', ' ', '0', ' ', '0', ' ', '0']);
    }
    assert(dec_join(b.take(31)) == seq!['1', ' ', '1', ' ', '0', ' ', '0', ' ', '0', ' ', '0', ' ', '0', ' ', '0', ' ', '0', ' ', '0', ' ', '0', ' ', '0', ' ', '0', ' ', '0', ' ', '0', ' ', '0', ' ', '0', ' ', '0', ' ', '0', ' ', '0', ' ', '0', ' ', '0', ' ', '0', ' ', '0', ' ', '0', ' ', '0', ' ', '0', ' ', '0', ' ', '0', ' ', '0', ' ', '0']) by {
        lemma_dec_join_step(b, 30);
        assert(seq!['1', ' ', '1', ' ', '0', ' ', '0', ' ', '0', ' ', '0', ' ', '0', ' ', '0', ' ', '0', ' ', '0', ' ', '0', ' ', '0', ' ', '0', ' ', '0', ' ', '0', ' ', '0', ' ', '0', ' ', '0', ' ', '0', ' ', '0', ' ', '0', ' ', '0', ' ', '0', ' ', '0', ' ', '0', ' ', '0', ' ', '0', ' ', '0', ' ', '0', ' ', '0'] + seq![' '] + dec_digits(b[30] as nat) =~= seq!['1', ' ', '1', ' ', '0', ' ', '0', ' ', '0', ' ', '0', ' ', '0', ' ', '0', ' ', '0', ' ', '0', ' ', '0', ' ', '0', ' ', '0', ' ', '0', ' ', '0', ' ', '0', ' ', '0', ' ', '0', ' ', '0', ' ', '0', ' ', '0', ' ', '0', ' ', '0', ' ', '0', ' ', '0', ' ', '0', ' ', '0', ' ', '0', ' ', '0', ' ', '0', ' ', '0']);
    }
    assert(dec_join(b.take(32)) == seq!['1', ' ', '1', ' ', '0', ' ', '0', ' ', '0', ' ', '0', ' ', '0', ' ', '0', ' ', '0', ' ', '0', ' ', '0', ' ', '0', ' ', '0', ' ', '0', ' ', '0', ' ', '0', ' ', '0', ' ', '0', ' ', '0', ' ', '0', ' ', '0', ' ', '0', ' ', '0', ' ', '0', ' ', '0', ' ', '0', ' ', '0', ' ', '0', ' ', '0', ' ', '0', ' ', '0', ' ', '0']) by {
        lemma_dec_join_step(b, 31);
        assert(seq!['1', ' ', '1', ' ', '0', ' ', '0', ' ', '0', ' ', '0', ' ', '0', ' ', '0', ' ', '0', ' ', '0', ' ', '0', ' ', '0', ' ', '0', ' ', '0', ' ', '0', ' ', '0', ' ', '0', ' ', '0', ' ', '0', ' ', '0', ' ', '0', ' ', '0', ' ', '0', ' ', '0', ' ', '0', ' ', '0', ' ', '0', ' ', '0', ' ', '0', ' ', '0', ' ', '0'] + seq![' '] + dec_digits(b[31] as nat) =~= seq!['1', ' ', '1', ' ', '0', ' ', '0', ' ', '0', ' ', '0', ' ', '0', ' ', '0', ' ', '0', ' ', '0', ' ', '0', ' ', '0', ' ', '0', ' ', '0', ' ', '0', ' ', '0', ' ', '0', ' ', '0', ' ', '0', ' ', '0', ' ', '0', ' ', '0', ' ', '0', ' ', '0', ' ', '0', ' ', '0', ' ', '0', ' ', '0', ' ', '0', ' ', '0', ' ', '0', ' ', '0']);
    }
    assert(dec_join(b.take(33)) == seq!['1', ' ', '1', ' ', '0', ' ', '0', ' ', '0', ' ', '0', ' ', '0', ' ', '0', ' ', '0', ' ', '0', ' ', '0', ' ', '0', ' ', '0', ' ', '0', ' ', '0', ' ', '0', ' ', '0', ' ', '0', ' ', '0', ' ', '0', ' ', '0', ' ', '0', ' ', '0', ' ', '0', ' ', '0', ' ', '0', ' ', '0', ' ', '0', ' ', '0', ' ', '0', ' ', '0', ' ', '0', ' ', '0']) by {
        lemma_dec_join_step(b, 32);
        assert(seq!['1', ' ', '1', ' ', '0', ' ', '0', ' ', '0', ' ', '0', ' ', '0', ' ', '0', ' ', '0', ' ', '0', ' ', '0', ' ', '0', ' ', '0', ' ', '0', ' ', '0', ' ', '0', ' ', '0', ' ', '0', ' ', '0', ' ', '0', ' ', '0', ' ', '0', ' ', '0', ' ', '0', ' ', '0', ' ', '0', ' ', '0', ' ', '0', ' ', '0', ' ', '0', ' ', '0', ' ', '0'] + seq![' '] + dec_digits(b[32] as nat) =~= seq!['1', ' ', '1', ' ', '0', ' ', '0', ' ', '0', ' ', '0', ' ', '0', ' ', '0', ' ', '0', ' ', '0', ' ', '0', ' ', '0', ' ', '0', ' ', '0', ' ', '0', ' ', '0', ' ', '0', ' ', '0', ' ', '0', ' ', '0', ' ', '0', ' ', '0', ' ', '0', ' ', '0', ' ', '0', ' ', '0', ' ', '0', ' ', '0', ' ', '0', ' ', '0', ' ', '0', ' ', '0', ' ', '0']);
    }
    assert(dec_join(b.take(34)) == seq!['1', ' ', '1', ' ', '0', ' ', '0', ' ', '0', ' ', '0', ' ', '0', ' ', '0', ' ', '0', ' ', '0', ' ', '0', ' ', '0', ' ', '0', ' ', '0', ' ', '0', ' ', '0', ' ', '0', ' ', '0', ' ', '0', ' ', '0', ' ', '0', ' ', '0', ' ', '0', ' ', '0', ' ', '0', ' ', '0', ' ', '0', ' ', '0', ' ', '0', ' ', '0', ' ', '0', ' ', '0', ' ', '0', ' ', '0']) by {
        lemma_dec_join_step(b, 33);
        assert(seq!['1', ' ', '1', ' ', '0', ' ', '0', ' ', '0', ' ', '0', ' ', '0', ' ', '0', ' ', '0', ' ', '0', ' ', '0', ' ', '0', ' ', '0', ' ', '0', ' ', '0', ' ', '0', ' ', '0', ' ', '0', ' ', '0', ' ', '0', ' ', '0', ' ', '0', ' ', '0', ' ', '0', ' ', '0', ' ', '0', ' ', '0', ' ', '0', ' ', '0', ' ', '0', ' ', '0', ' ', '0', ' ', '0'] + seq![' '] + dec_digits(b[33] as nat) =~= seq!['1', ' ', '1', ' ', '0', ' ', '0', ' ', '0', ' ', '0', ' ', '0', ' ', '0', ' ', '0', ' ', '0', ' ', '0', ' ', '0', ' ', '0', ' ', '0', ' ', '0', ' ', '0', ' ', '0', ' ', '0', ' ', '0', ' ', '0', ' ', '0', ' ', '0', ' ', '0', ' ', '0', ' ', '0', ' ', '0', ' ', '0', ' ', '0', ' ', '0', ' ', '0', ' ', '0', ' ', '0', ' ', '0', ' ', '0']);
    }
    assert(dec_join(b.take(35)) == seq!['1', ' ', '1', ' ', '0', ' ', '0', ' ', '0', ' ', '0', ' ', '0', ' ', '0', ' ', '0', ' ', '0', ' ', '0', ' ', '0', ' ', '0', ' ', '0', ' ', '0', ' ', '0', ' ', '0', ' ', '0', ' ', '0', ' ', '0', ' ', '0', ' ', '0', ' ', '0', ' ', '0', ' ', '0', ' ', '0', ' ', '0', ' ', '0', ' ', '0', ' ', '0', ' ', '0', ' ', '0', ' ', '0', ' ', '0', ' ', '0']) by {
        lemma_dec_join_step(b, 34);
        assert(seq!['1', ' ', '1', ' ', '0', ' ', '0', ' ', '0', ' ', '0', ' ', '0', ' ', '0', ' ', '0', ' ', '0', ' ', '0', ' ', '0', ' ', '0', ' ', '0', ' ', '0', ' ', '0', ' ', '0', ' ', '0', ' ', '0', ' ', '0', ' ', '0', ' ', '0', ' ', '0', ' ', '0', ' ', '0', ' ', '0', ' ', '0', ' ', '0', ' ', '0', ' ', '0', ' ', '0', ' ', '0', ' ', '0', ' ', '0'] + seq![' '] + dec_digits(b[34] as nat) =~= seq!['1', ' ', '1', ' ', '0', ' ', '0', ' ', '0', ' ', '0', ' ', '0', ' ', '0', ' ', '0', ' ', '0', ' ', '0', ' ', '0', ' ', '0', ' ', '0', ' ', '0', ' ', '0', ' ', '0', ' ', '0', ' ', '0', ' ', '0', ' ', '0', ' ', '0', ' ', '0', ' ', '0', ' ', '0', ' ', '0', ' ', '0', ' ', '0', ' ', '0', ' ', '0', ' ', '0', ' ', '0', ' ', '0', ' ', '0', ' ', '0']);
    }
    assert(dec_join(b.take(36)) == seq!['1', ' ', '1', ' ', '0', ' ', '0', ' ', '0', ' ', '0', ' ', '0', ' ', '0', ' ', '0', ' ', '0', ' ', '0', ' ', '0', ' ', '0', ' ', '0', ' ', '0', ' ', '0', ' ', '0', ' ', '0', ' ', '0', ' ', '0', ' ', '0', ' ', '0', ' ', '0', ' ', '0', ' ', '0', ' ', '0', ' ', '0', ' ', '0', ' ', '0', ' ', '0', ' ', '0', ' ', '0', ' ', '0', ' ', '0', ' ', '0', ' ', '0']) by {
        lemma_dec_join_step(b, 35);
        assert(seq!['1', ' ', '1', ' ', '0', ' ', '0', ' ', '0', ' ', '0', ' ', '0', ' ', '0', ' ', '0', ' ', '0', ' ', '0', ' ', '0', ' ', '0', ' ', '0', ' ', '0', ' ', '0', ' ', '0', ' ', '0', ' ', '0', ' ', '0', ' ', '0', ' ', '0', ' ', '0', ' ', '0', ' ', '0', ' ', '0', ' ', '0', ' ', '0', ' ', '0', ' ', '0', ' ', '0', ' ', '0', ' ', '0', ' ', '0', ' ', '0'] + seq![' '] + dec_digits(b[35] as nat) =~= seq!['1', ' ', '1', ' ', '0', ' ', '0', ' ', '0', ' ', '0', ' ', '0', ' ', '0', ' ', '0', ' ', '0', ' ', '0', ' ', '0', ' ', '0', ' ', '0', ' ', '0', ' ', '0', ' ', '0', ' ', '0', ' ', '0', ' ', '0', ' ', '0', ' ', '0', ' ', '0', ' ', '0', ' ', '0', ' ', '0', ' ', '0', ' ', '0', ' ', '0', ' ', '0', ' ', '0', ' ', '0', ' ', '0', ' ', '0', ' ', '0', ' ', '0']);
    }
    assert(dec_join(b.take(37)) == seq!['1', ' ', '1', ' ', '0', ' ', '0', ' ', '0', ' ', '0', ' ', '0', ' ', '0', ' ', '0', ' ', '0', ' ', '0', ' ', '0', ' ', '0', ' ', '0', ' ', '0', ' ', '0', ' ', '0', ' ', '0', ' ', '0', ' ', '0', ' ', '0', ' ', '0', ' ', '0', ' ', '0', ' ', '0', ' ', '0', ' ', '0', ' ', '0', ' ', '0', ' ', '0', ' ', '0', ' ', '0', ' ', '0', ' ', '0', ' ', '0', ' ', '0', ' ', '0']) by {
        lemma_dec_join_step(b, 36);
        assert(seq!['1', ' ', '1', ' ', '0', ' ', '0', ' ', '0', ' ', '0', ' ', '0', ' ', '0', ' ', '0', ' ', '0', ' ', '0', ' ', '0', ' ', '0', ' ', '0', ' ', '0', ' ', '0', ' ', '0', ' ', '0', ' ', '0', ' ', '0', ' ', '0', ' ', '0', ' ', '0', ' ', '0', ' ', '0', ' ', '0', ' ', '0', ' ', '0', ' ', '0', ' ', '0', ' ', '0', ' ', '0', ' ', '0', ' ', '0', ' ', '0', ' ', '0'] + seq![' '] + dec_digits(b[36] as nat) =~= seq!['1', ' ', '1', ' ', '0', ' ', '0', ' ', '0', ' ', '0', ' ', '0', ' ', '0', ' ', '0', ' ', '0', ' ', '0', ' ', '0', ' ', '0', ' ', '0', ' ', '0', ' ', '0', ' ', '0', ' ', '0', ' ', '0', ' ', '0', ' ', '0', ' ', '0', ' ', '0', ' ', '0', ' ', '0', ' ', '0', ' ', '0', ' ', '0', ' ', '0', ' ', '0', ' ', '0', ' ', '0', ' ', '0', ' ', '0', ' ', '0', ' ', '0', ' ', '0']);
    }
    assert(dec_join(b.take(38)) == seq!['1', ' ', '1', ' ', '0', ' ', '0', ' ', '0', ' ', '0', ' ', '0', ' ', '0', ' ', '0', ' ', '0', ' ', '0', ' ', '0', ' ', '0', ' ', '0', ' ', '0', ' ', '0', ' ', '0', ' ', '0', ' ', '0', ' ', '0', ' ', '0', ' ', '0', ' ', '0', ' ', '0', ' ', '0', ' ', '0', ' ', '0', ' ', '0', ' ', '0', ' ', '0', ' ', '0', ' ', '0', ' ', '0', ' ', '0', ' ', '0', ' ', '0', ' ', '0', ' ', '0']) by {
        lemma_dec_join_step(b, 37);
        assert(seq!['1', ' ', '1', ' ', '0', ' ', '0', ' ', '0', ' ', '0', ' ', '0', ' ', '0', ' ', '0', ' ', '0', ' ', '0', ' ', '0', ' ', '0', ' ', '0', ' ', '0', ' ', '0', ' ', '0', ' ', '0', ' ', '0', ' ', '0', ' ', '0', ' ', '0', ' ', '0', ' ', '0', ' ', '0', ' ', '0', ' ', '0', ' ', '0', ' ', '0', ' ', '0', ' ', '0', ' ', '0', ' ', '0', ' ', '0', ' ', '0', ' ', '0', ' ', '0'] + seq![' '] + dec_digits(b[37] as nat) =~= seq!['1', ' ', '1', ' ', '0', ' ', '0', ' ', '0', ' ', '0', ' ', '0', ' ', '0', ' ', '0', ' ', '0', ' ', '0', ' ', '0', ' ', '0', ' ', '0', ' ', '0', ' ', '0', ' ', '0', ' ', '0', ' ', '0', ' ', '0', ' ', '0', ' ', '0', ' ', '0', ' ', '0', ' ', '0', ' ', '0', ' ', '0', ' ', '0', ' ', '0', ' ', '0', ' ', '0', ' ', '0', ' ', '0', ' ', '0', ' ', '0', ' ', '0', ' ', '0', ' ', '0']);
    }
    assert(dec_join(b.take(39)) == seq!['1', ' ', '1', ' ', '0', ' ', '0', ' ', '0', ' ', '0', ' ', '0', ' ', '0', ' ', '0', ' ', '0', ' ', '0', ' ', '0', ' ', '0', ' ', '0', ' ', '0', ' ', '0', ' ', '0', ' ', '0', ' ', '0', ' ', '0', ' ', '0', ' ', '0', ' ', '0', ' ', '0', ' ', '0', ' ', '0', ' ', '0', ' ', '0', ' ', '0', ' ', '0', ' ', '0', ' ', '0', ' ', '0', ' ', '0', ' ', '0', ' ', '0', ' ', '0', ' ', '0', ' ', '0']) by {
        lemma_dec_join_step(b, 38);
        assert(seq!['1', ' ', '1', ' ', '0', ' ', '0', ' ', '0', ' ', '0', ' ', '0', ' ', '0', ' ', '0', ' ', '0', ' ', '0', ' ', '0', ' ', '0', ' ', '0', ' ', '0', ' ', '0', ' ', '0', ' ', '0', ' ', '0', ' ', '0', ' ', '0', ' ', '0', ' ', '0', ' ', '0', ' ', '0', ' ', '0', ' ', '0', ' ', '0', ' ', '0', ' ', '0', ' ', '0', ' ', '0', ' ', '0', ' ', '0', ' ', '0', ' ', '0', ' ', '0', ' ', '0'] + seq![' '] + dec_digits(b[38] as nat) =~= seq!['1', ' ', '1', ' ', '0', ' ', '0', ' ', '0', ' ', '0', ' ', '0', ' ', '0', ' ', '0', ' ', '0', ' ', '0', ' ', '0', ' ', '0', ' ', '0', ' ', '0', ' ', '0', ' ', '0', ' ', '0', ' ', '0', ' ', '0', ' ', '0', ' ', '0', ' ', '0', ' ', '0', ' ', '0', ' ', '0', ' ', '0', ' ', '0', ' ', '0', ' ', '0', ' ', '0', ' ', '0', ' ', '0', ' ', '0', ' ', '0', ' ', '0', ' ', '0', ' ', '0', ' ', '0']);
    }
    assert(dec_join(b.take(40)) == seq!['1', ' ', '1', ' ', '0', ' ', '0', ' ', '0', ' ', '0', ' ', '0', ' ', '0', ' ', '0', ' ', '0', ' ', '0', ' ', '0', ' ', '0', ' ', '0', ' ', '0', ' ', '0', ' ', '0', ' ', '0', ' ', '0', ' ', '0', ' ', '0', ' ', '0', ' ', '0', ' ', '0', ' ', '0', ' ', '0', ' ', '0', ' ', '0', ' ', '0', ' ', '0', ' ', '0', ' ', '0', ' ', '0', ' ', '0', ' ', '0', ' ', '0', ' ', '0', ' ', '0', ' ', '0', ' ', '0']) by {
        lemma_dec_join_step(b, 39);
        assert(seq!['1', ' ', '1', ' ', '0', ' ', '0', ' ', '0', ' ', '0', ' ', '0', ' ', '0', ' ', '0', ' ', '0', ' ', '0', ' ', '0', ' ', '0', ' ', '0', ' ', '0', ' ', '0', ' ', '0', ' ', '0', ' ', '0', ' ', '0', ' ', '0', ' ', '0', ' ', '0', ' ', '0', ' ', '0', ' ', '0', ' ', '0', ' ', '0', ' ', '0', ' ', '0', ' ', '0', ' ', '0', ' ', '0', ' ', '0', ' ', '0', ' ', '0', ' ', '0', ' ', '0', ' ', '0'] + seq![' '] + dec_digits(b[39] as nat) =~= seq!['1', ' ', '1', ' ', '0', ' ', '0', ' ', '0', ' ', '0', ' ', '0', ' ', '0', ' ', '0', ' ', '0', ' ', '0', ' ', '0', ' ', '0', ' ', '0', ' ', '0', ' ', '0', ' ', '0', ' ', '0', ' ', '0', ' ', '0', ' ', '0', ' ', '0', ' ', '0', ' ', '0', ' ', '0', ' ', '0', ' ', '0', ' ', '0', ' ', '0', ' ', '0', ' ', '0', ' ', '0', ' ', '0', ' ', '0', ' ', '0', ' ', '0', ' ', '0', ' ', '0', ' ', '0', ' ', '0']);
    }
    assert(dec_join(b.take(41)) == seq!['1', ' ', '1', ' ', '0', ' ', '0', ' ', '0', ' ', '0', ' ', '0', ' ', '0', ' ', '0', ' ', '0', ' ', '0', ' ', '0', ' ', '0', ' ', '0', ' ', '0', ' ', '0', ' ', '0', ' ', '0', ' ', '0', ' ', '0', ' ', '0', ' ', '0', ' ', '0', ' ', '0', ' ', '0', ' ', '0', ' ', '0', ' ', '0', ' ', '0', ' ', '0', ' ', '0', ' ', '0', ' ', '0', ' ', '0', ' ', '0', ' ', '0', ' ', '0', ' ', '0', ' ', '0', ' ', '0', ' ', '0']) by {
        lemma_dec_join_step(b, 40);
        assert(seq!['1', ' ', '1', ' ', '0', ' ', '0', ' ', '0', ' ', '0', ' ', '0', ' ', '0', ' ', '0', ' ', '0', ' ', '0', ' ', '0', ' ', '0', ' ', '0', ' ', '0', ' ', '0', ' ', '0', ' ', '0', ' ', '0', ' ', '0', ' ', '0', ' ', '0', ' ', '0', ' ', '0', ' ', '0', ' ', '0', ' ', '0', ' ', '0', ' ', '0', ' ', '0', ' ', '0', ' ', '0', ' ', '0', ' ', '0', ' ', '0', ' ', '0', ' ', '0', ' ', '0', ' ', '0', ' ', '0'] + seq![' '] + dec_digits(b[40] as nat) =~= seq!['1', ' ', '1', ' ', '0', ' ', '0', ' ', '0', ' ', '0', ' ', '0', ' ', '0', ' ', '0', ' ', '0', ' ', '0', ' ', '0', ' ', '0', ' ', '0', ' ', '0', ' ', '0', ' ', '0', ' ', '0', ' ', '0', ' ', '0', ' ', '0', ' ', '0', ' ', '0', ' ', '0', ' ', '0', ' ', '0', ' ', '0', ' ', '0', ' ', '0', ' ', '0', ' ', '0', ' ', '0', ' ', '0', ' ', '0', ' ', '0', ' ', '0', ' ', '0', ' ', '0', ' ', '0', ' ', '0', ' ', '0']);
    }
    assert(dec_join(b.take(42)) == seq!['1', ' ', '1', ' ', '0', ' ', '0', ' ', '0', ' ', '0', ' ', '0', ' ', '0', ' ', '0', ' ', '0', ' ', '0', ' ', '0', ' ', '0', ' ', '0', ' ', '0', ' ', '0', ' ', '0', ' ', '0', ' ', '0', ' ', '0', ' ', '0', ' ', '0', ' ', '0', ' ', '0', ' ', '0', ' ', '0', ' ', '0', ' ', '0', ' ', '0', ' ', '0', ' ', '0', ' ', '0', ' ', '0', ' ', '0', ' ', '0', ' ', '0', ' ', '0', ' ', '0', ' ', '0', ' ', '0', ' ', '0', ' ', '0']) by {
        lemma_dec_join_step(b, 41);
        assert(seq!['1', ' ', '1', ' ', '0', ' ', '0', ' ', '0', ' ', '0', ' ', '0', ' ', '0', ' ', '0', ' ', '0', ' ', '0', ' ', '0', ' ', '0', ' ', '0', ' ', '0', ' ', '0', ' ', '0', ' ', '0', ' ', '0', ' ', '0', ' ', '0', ' ', '0', ' ', '0', ' ', '0', ' ', '0', ' ', '0', ' ', '0', ' ', '0', ' ', '0', ' ', '0', ' ', '0', ' ', '0', ' ', '0', ' ', '0', ' ', '0', ' ', '0', ' ', '0', ' ', '0', ' ', '0', ' ', '0', ' ', '0'] + seq![' '] + dec_digits(b[41] as nat) =~= seq!['1', ' ', '1', ' ', '0', ' ', '0', ' ', '0', ' ', '0', ' ', '0', ' ', '0', ' ', '0', ' ', '0', ' ', '0', ' ', '0', ' ', '0', ' ', '0', ' ', '0', ' ', '0', ' ', '0', ' ', '0', ' ', '0', ' ', '0', ' ', '0', ' ', '0', ' ', '0', ' ', '0', ' ', '0', ' ', '0', ' ', '0', ' ', '0', ' ', '0', ' ', '0', ' ', '0', ' ', '0', ' ', '0', ' ', '0', ' ', '0', ' ', '0', ' ', '0', ' ', '0', ' ', '0', ' ', '0', ' ', '0', ' ', '0']);
    }
    assert(dec_join(b.take(43)) == seq!['1', ' ', '1', ' ', '0', ' ', '0', ' ', '0', ' ', '0', ' ', '0', ' ', '0', ' ', '0', ' ', '0', ' ', '0', ' ', '0', ' ', '0', ' ', '0', ' ', '0', ' ', '0', ' ', '0', ' ', '0', ' ', '0', ' ', '0', ' ', '0', ' ', '0', ' ', '0', ' ', '0', ' ', '0', ' ', '0', ' ', '0', ' ', '0', ' ', '0', ' ', '0', ' ', '0', ' ', '0', ' ', '0', ' ', '0', ' ', '0', ' ', '0', ' ', '0', ' ', '0', ' ', '0', ' ', '0', ' ', '0', ' ', '0', ' ', '0']) by {
        lemma_dec_join_step(b, 42);
        assert(seq!['1', ' ', '1', ' ', '0', ' ', '0', ' ', '0', ' ', '0', ' ', '0', ' ', '0', ' ', '0', ' ', '0', ' ', '0', ' ', '0', ' ', '0', ' ', '0', ' ', '0', ' ', '0', ' ', '0', ' ', '0', ' ', '0', ' ', '0', ' ', '0', ' ', '0', ' ', '0', ' ', '0', ' ', '0', ' ', '0', ' ', '0', ' ', '0', ' ', '0', ' ', '0', ' ', '0', ' ', '0', ' ', '0', ' ', '0', ' ', '0', ' ', '0', ' ', '0', ' ', '0', ' ', '0', ' ', '0', ' ', '0', ' ', '0'] + seq![' '] + dec_digits(b[42] as nat) =~= seq!['1', ' ', '1', ' ', '0', ' ', '0', ' ', '0', ' ', '0', ' ', '0', ' ', '0', ' ', '0', ' ', '0', ' ', '0', ' ', '0', ' ', '0', ' ', '0', ' ', '0', ' ', '0', ' ', '0', ' ', '0', ' ', '0', ' ', '0', ' ', '0', ' ', '0', ' ', '0', ' ', '0', ' ', '0', ' ', '0', ' ', '0', ' ', '0', ' ', '0', ' ', '0', ' ', '0', ' ', '0', ' ', '0', ' ', '0', ' ', '0', ' ', '0', ' ', '0', ' ', '0', ' ', '0', ' ', '0', ' ', '0', ' ', '0', ' ', '0']);
    }
    assert(dec_join(b.take(44)) == seq!['1', ' ', '1', ' ', '0', ' ', '0', ' ', '0', ' ', '0', ' ', '0', ' ', '0', ' ', '0', ' ', '0', ' ', '0', ' ', '0', ' ', '0', ' ', '0', ' ', '0', ' ', '0', ' ', '0', ' ', '0', ' ', '0', ' ', '0', ' ', '0', ' ', '0', ' ', '0', ' ', '0', ' ', '0', ' ', '0', ' ', '0', ' ', '0', ' ', '0', ' ', '0', ' ', '0', ' ', '0', ' ', '0', ' ', '0', ' ', '0', ' ', '0', ' ', '0', ' ', '0', ' ', '0', ' ', '0', ' ', '0', ' ', '0', ' ', '0', ' ', '0']) by {
        lemma_dec_join_step(b, 43);
        assert(seq!['1', ' ', '1', ' ', '0', ' ', '0', ' ', '0', ' ', '0', ' ', '0', ' ', '0', ' ', '0', ' ', '0', ' ', '0', ' ', '0', ' ', '0', ' ', '0', ' ', '0', ' ', '0', ' ', '0', ' ', '0', ' ', '0', ' ', '0', ' ', '0', ' ', '0', ' ', '0', ' ', '0', ' ', '0', ' ', '0', ' ', '0', ' ', '0', ' ', '0', ' ', '0', ' ', '0', ' ', '0', ' ', '0', ' ', '0', ' ', '0', ' ', '0', ' ', '0', ' ', '0', ' ', '0', ' ', '0', ' ', '0', ' ', '0', ' ', '0'] + seq![' '] + dec_digits(b[43] as nat) =~= seq!['1', ' ', '1', ' ', '0', ' ', '0', ' ', '0', ' ', '0', ' ', '0', ' ', '0', ' ', '0', ' ', '0', ' ', '0', ' ', '0', ' ', '0', ' ', '0', ' ', '0', ' ', '0', ' ', '0', ' ', '0', ' ', '0', ' ', '0', ' ', '0', ' ', '0', ' ', '0', ' ', '0', ' ', '0', ' ', '0', ' ', '0', ' ', '0', ' ', '0', ' ', '0', ' ', '0', ' ', '0', ' ', '0', ' ', '0', ' ', '0', ' ', '0', ' ', '0', ' ', '0', ' ', '0', ' ', '0', ' ', '0', ' ', '0', ' ', '0', ' ', '0']);
    }
    assert(b.take(44) =~= b);
    assert(dec_join(b) == "1 1 0 0 0 0 0 0 0 0 0 0 0 0 0 0 0 0 0 0 0 0 0 0 0 0 0 0 0 0 0 0 0 0 0 0 0 0 0 0 0 0 0 0"@) by {
        reveal_strlit("1 1 0 0 0 0 0 0 0 0 0 0 0 0 0 0 0 0 0 0 0 0 0 0 0 0 0 0 0 0 0 0 0 0 0 0 0 0 0 0 0 0 0 0");
    }
    law_space_dec_roundtrip(b);
}

proof fn lemma_payload_zeros2()
    ensures
        space_dec("0 0"@) == Ok::<Seq<u8>, Seq<char>>(seq![0u8, 0u8]),
{
    let b: Seq<u8> = seq![0u8, 0u8];
    lemma_decimal_texts();
    assert(dec_join(b.take(1)) == seq!['0']) by {
        lemma_dec_join_first(b);
    }
    assert(dec_join(b.take(2)) == seq!['0', ' ', '0']) by {
        lemma_dec_join_step(b, 1);
        assert(seq!['0'] + seq![' '] + dec_digits(b[1] as nat) =~= seq!['0', ' ', '0']);
    }
    assert(b.take(2) =~= b);
    assert(dec_join(b) == "0 0"@) by {
        reveal_strlit("0 0");
    }
    law_space_dec_roundtrip(b);
}

proof fn lemma_payload_zero()
    ensures
        space_dec("0"@) == Ok::<Seq<u8>, Seq<char>>(seq![0u8]),
{
    let b: Seq<u8> = seq![0u8];
    lemma_decimal_texts();
    assert(dec_join(b) == "0"@) by {
        reveal_strlit("0");
    }
    law_space_dec_roundtrip(b);
}

proof fn lemma_payload_ulca3x()
    ensures
        space_dec("1 1 1 1 0 0"@) == Ok::<Seq<u8>, Seq<char>>(seq![1u8, 1u8, 1u8, 1u8, 0u8, 0u8]),
{
    let b: Seq<u8> = seq![1u8, 1u8, 1u8, 1u8, 0u8, 0u8];
    lemma_decimal_texts();
    assert(dec_join(b.take(1)) == seq!['1']) by {
        lemma_dec_join_first(b);
    }
    assert(dec_join(b.take(2)) == seq!['1', ' ', '1']) by {
        lemma_dec_join_step(b, 1);
        assert(seq!['1'] + seq![' '] + dec_digits(b[1] as nat) =~= seq!['1', ' ', '1']);
    }
    assert(dec_join(b.take(3)) == seq!['1', ' ', '1', ' ', '1']) by {
        lemma_dec_join_step(b, 2);
        assert(seq!['1', ' ', '1'] + seq![' '] + dec_digits(b[2] as nat) =~= seq!['1', ' ', '1', ' ', '1']);
    }
    assert(dec_join(b.take(4)) == seq!['1', ' ', '1', ' ', '1', ' ', '1']) by {
        lemma_dec_join_step(b, 3);
        assert(seq!['1', ' ', '1', ' ', '1'] + seq![' '] + dec_digits(b[3] as nat) =~= seq!['1', ' ', '1', ' ', '1', ' ', '1']);
    }
    assert(dec_join(b.take(5)) == seq!['1', ' ', '1', ' ', '1', ' ', '1', ' ', '0']) by {
        lemma_dec_join_step(b, 4);
        assert(seq!['1', ' ', '1', ' ', '1', ' ', '1'] + seq![' '] + dec_digits(b[4] as nat) =~= seq!['1', ' ', '1', ' ', '1', ' ', '1', ' ', '0']);
    }
    assert(dec_join(b.take(6)) == seq!['1', ' ', '1', ' ', '1', ' ', '1', ' ', '0', ' ', '0']) by {
        lemma_dec_join_step(b, 5);
        assert(seq!['1', ' ', '1', ' ', '1', ' ', '1', ' ', '0'] + seq![' '] + dec_digits(b[5] as nat) =~= seq!['1', ' ', '1', ' ', '1', ' ', '1', ' ', '0', ' ', '0']);
    }
    assert(b.take(6) =~= b);
    assert(dec_join(b) == "1 1 1 1 0 0"@) by {
        reveal_strlit("1 1 1 1 0 0");
    }
    law_space_dec_roundtrip(b);
}

proof fn lemma_payload_ulca4x()
    ensures
        space_dec("0 1 1"@) == Ok::<Seq<u8>, Seq<char>>(seq![0u8, 1u8, 1u8]),
{
    let b: Seq<u8> = seq![0u8, 1u8, 1u8];
    lemma_decimal_texts();
    assert(dec_join(b.take(1)) == seq!['0']) by {
        lemma_dec_join_first(b);
    }
    assert(dec_join(b.take(2)) == seq!['0', ' ', '1']) by {
        lemma_dec_join_step(b, 1);
        assert(seq!['0'] + seq![' '] + dec_digits(b[1] as nat) =~= seq!['0', ' ', '1']);
    }
    assert(dec_join(b.take(3)) == seq!['0', ' ', '1', ' ', '1']) by {
        lemma_dec_join_step(b, 2);
        assert(seq!['0', ' ', '1'] + seq![' '] + dec_digits(b[2] as nat) =~= seq!['0', ' ', '1', ' ', '1']);
    }
    assert(b.take(3) =~= b);
    assert(dec_join(b) == "0 1 1"@) by {
        reveal_strlit("0 1 1");
    }
    law_space_dec_roundtrip(b);
}

proof fn lemma_payload_ulca4x_v2()
    ensures
        space_dec("0 1 1 0 1 1"@) == Ok::<Seq<u8>, Seq<char>>(seq![0u8, 1u8, 1u8, 0u8, 1u8, 1u8]),
{
    let b: Seq<u8> = seq![0u8, 1u8, 1u8, 0u8, 1u8, 1u8];
    lemma_decimal_texts();
    assert(dec_join(b.take(1)) == seq!['0']) by {
        lemma_dec_join_first(b);
    }
    assert(dec_join(b.take(2)) == seq!['0', ' ', '1']) by {
        lemma_dec_join_step(b, 1);
        assert(seq!['0'] + seq![' '] + dec_digits(b[1] as nat) =~= seq!['0', ' ', '1']);
    }
    assert(dec_join(b.take(3)) == seq!['0', ' ', '1', ' ', '1']) by {
        lemma_dec_join_step(b, 2);
        assert(seq!['0', ' ', '1'] + seq![' '] + dec_digits(b[2] as nat) =~= seq!['0', ' ', '1', ' ', '1']);
    }
    assert(dec_join(b.take(4)) == seq!['0', ' ', '1', ' ', '1', ' ', '0']) by {
        lemma_dec_join_step(b, 3);
        assert(seq!['0', ' ', '1', ' ', '1'] + seq![' '] + dec_digits(b[3] as nat) =~= seq!['0', ' ', '1', ' ', '1', ' ', '0']);
    }
    assert(dec_join(b.take(5)) == seq!['0', ' ', '1', ' ', '1', ' ', '0', ' ', '1']) by {
        lemma_dec_join_step(b, 4);
        assert(seq!['0', ' ', '1', ' ', '1', ' ', '0'] + seq![' '] + dec_digits(b[4] as nat) =~= seq!['0', ' ', '1', ' ', '1', ' ', '0', ' ', '1']);
    }
    assert(dec_join(b.take(6)) == seq!['0', ' ', '1', ' ', '1', ' ', '0', ' ', '1', ' ', '1']) by {
        lemma_dec_join_step(b, 5);
        assert(seq!['0', ' ', '1', ' ', '1', ' ', '0', ' ', '1'] + seq![' '] + dec_digits(b[5] as nat) =~= seq!['0', ' ', '1', ' ', '1', ' ', '0', ' ', '1', ' ', '1']);
    }
    assert(b.take(6) =~= b);
    assert(dec_join(b) == "0 1 1 0 1 1"@) by {
        reveal_strlit("0 1 1 0 1 1");
    }
    law_space_dec_roundtrip(b);
}

proof fn lemma_payload_one()
    ensures
        space_dec("1"@) == Ok::<Seq<u8>, Seq<char>>(seq![1u8]),
{
    let b: Seq<u8> = seq![1u8];
    lemma_decimal_texts();
    assert(dec_join(b) == "1"@) by {
        reveal_strlit("1");
    }
    law_space_dec_roundtrip(b);
}

#[verifier::spinoff_prover]
#[verifier::rlimit(80)]
proof fn lemma_payload_lowband()
    ensures
        space_dec("0 0 0 5 8 0 0 2 20 0 0 2 26 0 0 2 28 0 0 2 71 0 0 2 0 0 0 0 0 0 0 0 0 0 0 0 0 0 0 0 0 0 0 0"@) == Ok::<Seq<u8>, Seq<char>>(seq![0u8, 0u8, 0u8, 5u8, 8u8, 0u8, 0u8, 2u8, 20u8, 0u8, 0u8, 2u8, 26u8, 0u8, 0u8, 2u8, 28u8, 0u8, 0u8, 2u8, 71u8, 0u8, 0u8, 2u8, 0u8, 0u8, 0u8, 0u8, 0u8, 0u8, 0u8, 0u8, 0u8, 0u8, 0u8, 0u8, 0u8, 0u8, 0u8, 0u8, 0u8, 0u8, 0u8, 0u8]),
{
    let b: Seq<u8> = seq![0u8, 0u8, 0u8, 5u8, 8u8, 0u8, 0u8, 2u8, 20u8, 0u8, 0u8, 2u8, 26u8, 0u8, 0u8, 2u8, 28u8, 0u8, 0u8, 2u8, 71u8, 0u8, 0u8, 2u8, 0u8, 0u8, 0u8, 0u8, 0u8, 0u8, 0u8, 0u8, 0u8, 0u8, 0u8, 0u8, 0u8, 0u8, 0u8, 0u8, 0u8, 0u8, 0u8, 0u8];
    lemma_decimal_texts();
    assert(dec_join(b.take(1)) == seq!['0']) by {
        lemma_dec_join_first(b);
    }
    assert(dec_join(b.take(2)) == seq!['0', ' ', '0']) by {
        lemma_dec_join_step(b, 1);
        assert(seq!['0'] + seq![' '] + dec_digits(b[1] as nat) =~= seq!['0', ' ', '0']);
    }
    assert(dec_join(b.take(3)) == seq!['0', ' ', '0', ' ', '0']) by {
        lemma_dec_join_step(b, 2);
        assert(seq!['0', ' ', '0'] + seq![' '] + dec_digits(b[2] as nat) =~= seq!['0', ' ', '0', ' ', '0']);
    }
    assert(dec_join(b.take(4)) == seq!['0', ' ', '0', ' ', '0', ' ', '5']) by {
        lemma_dec_join_step(b, 3);
        assert(seq!['0', ' ', '0', ' ', '0'] + seq![' '] + dec_digits(b[3] as nat) =~= seq!['0', ' ', '0', ' ', '0', ' ', '5']);
    }
    assert(dec_join(b.take(5)) == seq!['0', ' ', '0', ' ', '0', ' ', '5', ' ', '8']) by {
        lemma_dec_join_step(b, 4);
        assert(seq!['0', ' ', '0', ' ', '0', ' ', '5'] + seq![' '] + dec_digits(b[4] as nat) =~= seq!['0', ' ', '0', ' ', '0', ' ', '5', ' ', '8']);
    }
    assert(dec_join(b.take(6)) == seq!['0', ' ', '0', ' ', '0', ' ', '5', ' ', '8', ' ', '0']) by {
        lemma_dec_join_step(b, 5);
        assert(seq!['0', ' ', '0', ' ', '0', ' ', '5', ' ', '8'] + seq![' '] + dec_digits(b[5] as nat) =~= seq!['0', ' ', '0', ' ', '0', ' ', '5', ' ', '8', ' ', '0']);
    }
    assert(dec_join(b.take(7)) == seq!['0', ' ', '0', ' ', '0', ' ', '5', ' ', '8', ' ', '0', ' ', '0']) by {
        lemma_dec_join_step(b, 6);
        assert(seq!['0', ' ', '0', ' ', '0', ' ', '5', ' ', '8', ' ', '0'] + seq![' '] + dec_digits(b[6] as nat) =~= seq!['0', ' ', '0', ' ', '0', ' ', '5', ' ', '8', ' ', '0', ' ', '0']);
    }
    assert(dec_join(b.take(8)) == seq!['0', ' ', '0', ' ', '0', ' ', '5', ' ', '8', ' ', '0', ' ', '0', ' ', '2']) by {
        lemma_dec_join_step(b, 7);
        assert(seq!['0', ' ', '0', ' ', '0', ' ', '5', ' ', '8', ' ', '0', ' ', '0'] + seq![' '] + dec_digits(b[7] as nat) =~= seq!['0', ' ', '0', ' ', '0', ' ', '5', ' ', '8', ' ', '0', ' ', '0', ' ', '2']);
    }
    assert(dec_join(b.take(9)) == seq!['0', ' ', '0', ' ', '0', ' ', '5', ' ', '8', ' ', '0', ' ', '0', ' ', '2', ' ', '2', '0']) by {
        lemma_dec_join_step(b, 8);
        assert(seq!['0', ' ', '0', ' ', '0', ' ', '5', ' ', '8', ' ', '0', ' ', '0', ' ', '2'] + seq![' '] + dec_digits(b[8] as nat) =~= seq!['0', ' ', '0', ' ', '0', ' ', '5', ' ', '8', ' ', '0', ' ', '0', ' ', '2', ' ', '2', '0']);
    }
    assert(dec_join(b.take(10)) == seq!['0', ' ', '0', ' ', '0', ' ', '5', ' ', '8', ' ', '0', ' ', '0', ' ', '2', ' ', '2', '0', ' ', '0']) by {
        lemma_dec_join_step(b, 9);
        assert(seq!['0', ' ', '0', ' ', '0', ' ', '5', ' ', '8', ' ', '0', ' ', '0', ' ', '2', ' ', '2', '0'] + seq![' '] + dec_digits(b[9] as nat) =~= seq!['0', ' ', '0', ' ', '0', ' ', '5', ' ', '8', ' ', '0', ' ', '0', ' ', '2', ' ', '2', '0', ' ', '0']);
    }
    assert(dec_join(b.take(11)) == seq!['0', ' ', '0', ' ', '0', ' ', '5', ' ', '8', ' ', '0', ' ', '0', ' ', '2', ' ', '2', '0', ' ', '0', ' ', '0']) by {
        lemma_dec_join_step(b, 10);
        assert(seq!['0', ' ', '0', ' ', '0', ' ', '5', ' ', '8', ' ', '0', ' ', '0', ' ', '2', ' ', '2', '0', ' ', '0'] + seq![' '] + dec_digits(b[10] as nat) =~= seq!['0', ' ', '0', ' ', '0', ' ', '5', ' ', '8', ' ', '0', ' ', '0', ' ', '2', ' ', '2', '0', ' ', '0', ' ', '0']);
    }
    assert(dec_join(b.take(12)) == seq!['0', ' ', '0', ' ', '0', ' ', '5', ' ', '8', ' ', '0', ' ', '0', ' ', '2', ' ', '2', '0', ' ', '0', ' ', '0', ' ', '2']) by {
        lemma_dec_join_step(b, 11);
        assert(seq!['0', ' ', '0', ' ', '0', ' ', '5', ' ', '8', ' ', '0', ' ', '0', ' ', '2', ' ', '2', '0', ' ', '0', ' ', '0'] + seq![' '] + dec_digits(b[11] as nat) =~= seq!['0', ' ', '0', ' ', '0', ' ', '5', ' ', '8', ' ', '0', ' ', '0', ' ', '2', ' ', '2', '0', ' ', '0', ' ', '0', ' ', '2']);
    }
    assert(dec_join(b.take(13)) == seq!['0', ' ', '0', ' ', '0', ' ', '5', ' ', '8', ' ', '0', ' ', '0', ' ', '2', ' ', '2', '0', ' ', '0', ' ', '0', ' ', '2', ' ', '2', '6']) by {
        lemma_dec_join_step(b, 12);
        assert(seq!['0', ' ', '0', ' ', '0', ' ', '5', ' ', '8', ' ', '0', ' ', '0', ' ', '2', ' ', '2', '0', ' ', '0', ' ', '0', ' ', '2'] + seq![' '] + dec_digits(b[12] as nat) =~= seq!['0', ' ', '0', ' ', '0', ' ', '5', ' ', '8', ' ', '0', ' ', '0', ' ', '2', ' ', '2', '0', ' ', '0', ' ', '0', ' ', '2', ' ', '2', '6']);
    }
    assert(dec_join(b.take(14)) == seq!['0', ' ', '0', ' ', '0', ' ', '5', ' ', '8', ' ', '0', ' ', '0', ' ', '2', ' ', '2', '0', ' ', '0', ' ', '0', ' ', '2', ' ', '2', '6', ' ', '0']) by {
        lemma_dec_join_step(b, 13);
        assert(seq!['0', ' ', '0', ' ', '0', ' ', '5', ' ', '8', ' ', '0', ' ', '0', ' ', '2', ' ', '2', '0', ' ', '0', ' ', '0', ' ', '2', ' ', '2', '6'] + seq![' '] + dec_digits(b[13] as nat) =~= seq!['0', ' ', '0', ' ', '0', ' ', '5', ' ', '8', ' ', '0', ' ', '0', ' ', '2', ' ', '2', '0', ' ', '0', ' ', '0', ' ', '2', ' ', '2', '6', ' ', '0']);
    }
    assert(dec_join(b.take(15)) == seq!['0', ' ', '0', ' ', '0', ' ', '5', ' ', '8', ' ', '0', ' ', '0', ' ', '2', ' ', '2', '0', ' ', '0', ' ', '0', ' ', '2', ' ', '2', '6', ' ', '0', ' ', '0']) by {
        lemma_dec_join_step(b, 14);
        assert(seq!['0', ' ', '0', ' ', '0', ' ', '5', ' ', '8', ' ', '0', ' ', '0', ' ', '2', ' ', '2', '0', ' ', '0', ' ', '0', ' ', '2', ' ', '2', '6', ' ', '0'] + seq![' '] + dec_digits(b[14] as nat) =~= seq!['0', ' ', '0', ' ', '0', ' ', '5', ' ', '8', ' ', '0', ' ', '0', ' ', '2', ' ', '2', '0', ' ', '0', ' ', '0', ' ', '2', ' ', '2', '6', ' ', '0', ' ', '0']);
    }
    assert(dec_join(b.take(16)) == seq!['0', ' ', '0', ' ', '0', ' ', '5', ' ', '8', ' ', '0', ' ', '0', ' ', '2', ' ', '2', '0', ' ', '0', ' ', '0', ' ', '2', ' ', '2', '6', ' ', '0', ' ', '0', ' ', '2']) by {
        lemma_dec_join_step(b, 15);
        assert(seq!['0', ' ', '0', ' ', '0', ' ', '5', ' ', '8', ' ', '0', ' ', '0', ' ', '2', ' ', '2', '0', ' ', '0', ' ', '0', ' ', '2', ' ', '2', '6', ' ', '0', ' ', '0'] + seq![' '] + dec_digits(b[15] as nat) =~= seq!['0', ' ', '0', ' ', '0', ' ', '5', ' ', '8', ' ', '0', ' ', '0', ' ', '2', ' ', '2', '0', ' ', '0', ' ', '0', ' ', '2', ' ', '2', '6', ' ', '0', ' ', '0', ' ', '2']);
    }
    assert(dec_join(b.take(17)) == seq!['0', ' ', '0', ' ', '0', ' ', '5', ' ', '8', ' ', '0', ' ', '0', ' ', '2', ' ', '2', '0', ' ', '0', ' ', '0', ' ', '2', ' ', '2', '6', ' ', '0', ' ', '0', ' ', '2', ' ', '2', '8']) by {
        lemma_dec_join_step(b, 16);
        assert(seq!['0', ' ', '0', ' ', '0', ' ', '5', ' ', '8', ' ', '0', ' ', '0', ' ', '2', ' ', '2', '0', ' ', '0', ' ', '0', ' ', '2', ' ', '2', '6', ' ', '0', ' ', '0', ' ', '2'] + seq![' '] + dec_digits(b[16] as nat) =~= seq!['0', ' ', '0', ' ', '0', ' ', '5', ' ', '8', ' ', '0', ' ', '0', ' ', '2', ' ', '2', '0', ' ', '0', ' ', '0', ' ', '2', ' ', '2', '6', ' ', '0', ' ', '0', ' ', '2', ' ', '2', '8']);
    }
    assert(dec_join(b.take(18)) == seq!['0', ' ', '0', ' ', '0', ' ', '5', ' ', '8', ' ', '0', ' ', '0', ' ', '2', ' ', '2', '0', ' ', '0', ' ', '0', ' ', '2', ' ', '2', '6', ' ', '0', ' ', '0', ' ', '2', ' ', '2', '8', ' ', '0']) by {
        lemma_dec_join_step(b, 17);
        assert(seq!['0', ' ', '0', ' ', '0', ' ', '5', ' ', '8', ' ', '0', ' ', '0', ' ', '2', ' ', '2', '0', ' ', '0', ' ', '0', ' ', '2', ' ', '2', '6', ' ', '0', ' ', '0', ' ', '2', ' ', '2', '8'] + seq![' '] + dec_digits(b[17] as nat) =~= seq!['0', ' ', '0', ' ', '0', ' ', '5', ' ', '8', ' ', '0', ' ', '0', ' ', '2', ' ', '2', '0', ' ', '0', ' ', '0', ' ', '2', ' ', '2', '6', ' ', '0', ' ', '0', ' ', '2', ' ', '2', '8', ' ', '0']);
    }
    assert(dec_join(b.take(19)) == seq!['0', ' ', '0', ' ', '0', ' ', '5', ' ', '8', ' ', '0', ' ', '0', ' ', '2', ' ', '2', '0', ' ', '0', ' ', '0', ' ', '2', ' ', '2', '6', ' ', '0', ' ', '0', ' ', '2', ' ', '2', '8', ' ', '0', ' ', '0']) by {
        lemma_dec_join_step(b, 18);
        assert(seq!['0', ' ', '0', ' ', '0', ' ', '5', ' ', '8', ' ', '0', ' ', '0', ' ', '2', ' ', '2', '0', ' ', '0', ' ', '0', ' ', '2', ' ', '2', '6', ' ', '0', ' ', '0', ' ', '2', ' ', '2', '8', ' ', '0'] + seq![' '] + dec_digits(b[18] as nat) =~= seq!['0', ' ', '0', ' ', '0', ' ', '5', ' ', '8', ' ', '0', ' ', '0', ' ', '2', ' ', '2', '0', ' ', '0', ' ', '0', ' ', '2', ' ', '2', '6', ' ', '0', ' ', '0', ' ', '2', ' ', '2', '8', ' ', '0', ' ', '0']);
    }
    assert(dec_join(b.take(20)) == seq!['0', ' ', '0', ' ', '0', ' ', '5', ' ', '8', ' ', '0', ' ', '0', ' ', '2', ' ', '2', '0', ' ', '0', ' ', '0', ' ', '2', ' ', '2', '6', ' ', '0', ' ', '0', ' ', '2', ' ', '2', '8', ' ', '0', ' ', '0', ' ', '2']) by {
        lemma_dec_join_step(b, 19);
        assert(seq!['0', ' ', '0', ' ', '0', ' ', '5', ' ', '8', ' ', '0', ' ', '0', ' ', '2', ' ', '2', '0', ' ', '0', ' ', '0', ' ', '2', ' ', '2', '6', ' ', '0', ' ', '0', ' ', '2', ' ', '2', '8', ' ', '0', ' ', '0'] + seq![' '] + dec_digits(b[19] as nat) =~= seq!['0', ' ', '0', ' ', '0', ' ', '5', ' ', '8', ' ', '0', ' ', '0', ' ', '2', ' ', '2', '0', ' ', '0', ' ', '0', ' ', '2', ' ', '2', '6', ' ', '0', ' ', '0', ' ', '2', ' ', '2', '8', ' ', '0', ' ', '0', ' ', '2']);
    }
    assert(dec_join(b.take(21)) == seq!['0', ' ', '0', ' ', '0', ' ', '5', ' ', '8', ' ', '0', ' ', '0', ' ', '2', ' ', '2', '0', ' ', '0', ' ', '0', ' ', '2', ' ', '2', '6', ' ', '0', ' ', '0', ' ', '2', ' ', '2', '8', ' ', '0', ' ', '0', ' ', '2', ' ', '7', '1']) by {
        lemma_dec_join_step(b, 20);
        assert(seq!['0', ' ', '0', ' ', '0', ' ', '5', ' ', '8', ' ', '0', ' ', '0', ' ', '2', ' ', '2', '0', ' ', '0', ' ', '0', ' ', '2', ' ', '2', '6', ' ', '0', ' ', '0', ' ', '2', ' ', '2', '8', ' ', '0', ' ', '0', ' ', '2'] + seq![' '] + dec_digits(b[20] as nat) =~= seq!['0', ' ', '0', ' ', '0', ' ', '5', ' ', '8', ' ', '0', ' ', '0', ' ', '2', ' ', '2', '0', ' ', '0', ' ', '0', ' ', '2', ' ', '2', '6', ' ', '0', ' ', '0', ' ', '2', ' ', '2', '8', ' ', '0', ' ', '0', ' ', '2', ' ', '7', '1']);
    }
    assert(dec_join(b.take(22)) == seq!['0', ' ', '0', ' ', '0', ' ', '5', ' ', '8', ' ', '0', ' ', '0', ' ', '2', ' ', '2', '0', ' ', '0', ' ', '0', ' ', '2', ' ', '2', '6', ' ', '0', ' ', '0', ' ', '2', ' ', '2', '8', ' ', '0', ' ', '0', ' ', '2', ' ', '7', '1', ' ', '0']) by {
        lemma_dec_join_step(b, 21);
        assert(seq!['0', ' ', '0', ' ', '0', ' ', '5', ' ', '8', ' ', '0', ' ', '0', ' ', '2', ' ', '2', '0', ' ', '0', ' ', '0', ' ', '2', ' ', '2', '6', ' ', '0', ' ', '0', ' ', '2', ' ', '2', '8', ' ', '0', ' ', '0', ' ', '2', ' ', '7', '1'] + seq![' '] + dec_digits(b[21] as nat) =~= seq!['0', ' ', '0', ' ', '0', ' ', '5', ' ', '8', ' ', '0', ' ', '0', ' ', '2', ' ', '2', '0', ' ', '0', ' ', '0', ' ', '2', ' ', '2', '6', ' ', '0', ' ', '0', ' ', '2', ' ', '2', '8', ' ', '0', ' ', '0', ' ', '2', ' ', '7', '1', ' ', '0']);
    }
    assert(dec_join(b.take(23)) == seq!['0', ' ', '0', ' ', '0', ' ', '5', ' ', '8', ' ', '0', ' ', '0', ' ', '2', ' ', '2', '0', ' ', '0', ' ', '0', ' ', '2', ' ', '2', '6', ' ', '0', ' ', '0', ' ', '2', ' ', '2', '8', ' ', '0', ' ', '0', ' ', '2', ' ', '7', '1', ' ', '0', ' ', '0']) by {
        lemma_dec_join_step(b, 22);
        assert(seq!['0', ' ', '0', ' ', '0', ' ', '5', ' ', '8', ' ', '0', ' ', '0', ' ', '2', ' ', '2', '0', ' ', '0', ' ', '0', ' ', '2', ' ', '2', '6', ' ', '0', ' ', '0', ' ', '2', ' ', '2', '8', ' ', '0', ' ', '0', ' ', '2', ' ', '7', '1', ' ', '0'] + seq![' '] + dec_digits(b[22] as nat) =~= seq!['0', ' ', '0', ' ', '0', ' ', '5', ' ', '8', ' ', '0', ' ', '0', ' ', '2', ' ', '2', '0', ' ', '0', ' ', '0', ' ', '2', ' ', '2', '6', ' ', '0', ' ', '0', ' ', '2', ' ', '2', '8', ' ', '0', ' ', '0', ' ', '2', ' ', '7', '1', ' ', '0', ' ', '0']);
    }
    assert(dec_join(b.take(24)) == seq!['0', ' ', '0', ' ', '0', ' ', '5', ' ', '8', ' ', '0', ' ', '0', ' ', '2', ' ', '2', '0', ' ', '0', ' ', '0', ' ', '2', ' ', '2', '6', ' ', '0', ' ', '0', ' ', '2', ' ', '2', '8', ' ', '0', ' ', '0', ' ', '2', ' ', '7', '1', ' ', '0', ' ', '0', ' ', '2']) by {
        lemma_dec_join_step(b, 23);
        assert(seq!['0', ' ', '0', ' ', '0', ' ', '5', ' ', '8', ' ', '0', ' ', '0', ' ', '2', ' ', '2', '0', ' ', '0', ' ', '0', ' ', '2', ' ', '2', '6', ' ', '0', ' ', '0', ' ', '2', ' ', '2', '8', ' ', '0', ' ', '0', ' ', '2', ' ', '7', '1', ' ', '0', ' ', '0'] + seq![' '] + dec_digits(b[23] as nat) =~= seq!['0', ' ', '0', ' ', '0', ' ', '5', ' ', '8', ' ', '0', ' ', '0', ' ', '2', ' ', '2', '0', ' ', '0', ' ', '0', ' ', '2', ' ', '2', '6', ' ', '0', ' ', '0', ' ', '2', ' ', '2', '8', ' ', '0', ' ', '0', ' ', '2', ' ', '7', '1', ' ', '0', ' ', '0', ' ', '2']);
    }
    assert(dec_join(b.take(25)) == seq!['0', ' ', '0', ' ', '0', ' ', '5', ' ', '8', ' ', '0', ' ', '0', ' ', '2', ' ', '2', '0', ' ', '0', ' ', '0', ' ', '2', ' ', '2', '6', ' ', '0', ' ', '0', ' ', '2', ' ', '2', '8', ' ', '0', ' ', '0', ' ', '2', ' ', '7', '1', ' ', '0', ' ', '0', ' ', '2', ' ', '0']) by {
        lemma_dec_join_step(b, 24);
        assert(seq!['0', ' ', '0', ' ', '0', ' ', '5', ' ', '8', ' ', '0', ' ', '0', ' ', '2', ' ', '2', '0', ' ', '0', ' ', '0', ' ', '2', ' ', '2', '6', ' ', '0', ' ', '0', ' ', '2', ' ', '2', '8', ' ', '0', ' ', '0', ' ', '2', ' ', '7', '1', ' ', '0', ' ', '0', ' ', '2'] + seq![' '] + dec_digits(b[24] as nat) =~= seq!['0', ' ', '0', ' ', '0', ' ', '5', ' ', '8', ' ', '0', ' ', '0', ' ', '2', ' ', '2', '0', ' ', '0', ' ', '0', ' ', '2', ' ', '2', '6', ' ', '0', ' ', '0', ' ', '2', ' ', '2', '8', ' ', '0', ' ', '0', ' ', '2', ' ', '7', '1', ' ', '0', ' ', '0', ' ', '2', ' ', '0']);
    }
    assert(dec_join(b.take(26)) == seq!['0', ' ', '0', ' ', '0', ' ', '5', ' ', '8', ' ', '0', ' ', '0', ' ', '2', ' ', '2', '0', ' ', '0', ' ', '0', ' ', '2', ' ', '2', '6', ' ', '0', ' ', '0', ' ', '2', ' ', '2', '8', ' ', '0', ' ', '0', ' ', '2', ' ', '7', '1', ' ', '0', ' ', '0', ' ', '2', ' ', '0', ' ', '0']) by {
        lemma_dec_join_step(b, 25);
        assert(seq!['0', ' ', '0', ' ', '0', ' ', '5', ' ', '8', ' ', '0', ' ', '0', ' ', '2', ' ', '2', '0', ' ', '0', ' ', '0', ' ', '2', ' ', '2', '6', ' ', '0', ' ', '0', ' ', '2', ' ', '2', '8', ' ', '0', ' ', '0', ' ', '2', ' ', '7', '1', ' ', '0', ' ', '0', ' ', '2', ' ', '0'] + seq![' '] + dec_digits(b[25] as nat) =~= seq!['0', ' ', '0', ' ', '0', ' ', '5', ' ', '8', ' ', '0', ' ', '0', ' ', '2', ' ', '2', '0', ' ', '0', ' ', '0', ' ', '2', ' ', '2', '6', ' ', '0', ' ', '0', ' ', '2', ' ', '2', '8', ' ', '0', ' ', '0', ' ', '2', ' ', '7', '1', ' ', '0', ' ', '0', ' ', '2', ' ', '0', ' ', '0']);
    }
    assert(dec_join(b.take(27)) == seq!['0', ' ', '0', ' ', '0', ' ', '5', ' ', '8', ' ', '0', ' ', '0', ' ', '2', ' ', '2', '0', ' ', '0', ' ', '0', ' ', '2', ' ', '2', '6', ' ', '0', ' ', '0', ' ', '2', ' ', '2', '8', ' ', '0', ' ', '0', ' ', '2', ' ', '7', '1', ' ', '0', ' ', '0', ' ', '2', ' ', '0', ' ', '0', ' ', '0']) by {
        lemma_dec_join_step(b, 26);
        assert(seq!['0', ' ', '0', ' ', '0', ' ', '5', ' ', '8', ' ', '0', ' ', '0', ' ', '2', ' ', '2', '0', ' ', '0', ' ', '0', ' ', '2', ' ', '2', '6', ' ', '0', ' ', '0', ' ', '2', ' ', '2', '8', ' ', '0', ' ', '0', ' ', '2', ' ', '7', '1', ' ', '0', ' ', '0', ' ', '2', ' ', '0', ' ', '0'] + seq![' '] + dec_digits(b[26] as nat) =~= seq!['0', ' ', '0', ' ', '0', ' ', '5', ' ', '8', ' ', '0', ' ', '0', ' ', '2', ' ', '2', '0', ' ', '0', ' ', '0', ' ', '2', ' ', '2', '6', ' ', '0', ' ', '0', ' ', '2', ' ', '2', '8', ' ', '0', ' ', '0', ' ', '2', ' ', '7', '1', ' ', '0', ' ', '0', ' ', '2', ' ', '0', ' ', '0', ' ', '0']);
    }
    assert(dec_join(b.take(28)) == seq!['0', ' ', '0', ' ', '0', ' ', '5', ' ', '8', ' ', '0', ' ', '0', ' ', '2', ' ', '2', '0', ' ', '0', ' ', '0', ' ', '2', ' ', '2', '6', ' ', '0', ' ', '0', ' ', '2', ' ', '2', '8', ' ', '0', ' ', '0', ' ', '2', ' ', '7', '1', ' ', '0', ' ', '0', ' ', '2', ' ', '0', ' ', '0', ' ', '0', ' ', '0']) by {
        lemma_dec_join_step(b, 27);
        assert(seq!['0', ' ', '0', ' ', '0', ' ', '5', ' ', '8', ' ', '0', ' ', '0', ' ', '2', ' ', '2', '0', ' ', '0', ' ', '0', ' ', '2', ' ', '2', '6', ' ', '0', ' ', '0', ' ', '2', ' ', '2', '8', ' ', '0', ' ', '0', ' ', '2', ' ', '7', '1', ' ', '0', ' ', '0', ' ', '2', ' ', '0', ' ', '0', ' ', '0'] + seq![' '] + dec_digits(b[27] as nat) =~= seq!['0', ' ', '0', ' ', '0', ' ', '5', ' ', '8', ' ', '0', ' ', '0', ' ', '2', ' ', '2', '0', ' ', '0', ' ', '0', ' ', '2', ' ', '2', '6', ' ', '0', ' ', '0', ' ', '2', ' ', '2', '8', ' ', '0', ' ', '0', ' ', '2', ' ', '7', '1', ' ', '0', ' ', '0', ' ', '2', ' ', '0', ' ', '0', ' ', '0', ' ', '0']);
    }
    assert(dec_join(b.take(29)) == seq!['0', ' ', '0', ' ', '0', ' ', '5', ' ', '8', ' ', '0', ' ', '0', ' ', '2', ' ', '2', '0', ' ', '0', ' ', '0', ' ', '2', ' ', '2', '6', ' ', '0', ' ', '0', ' ', '2', ' ', '2', '8', ' ', '0', ' ', '0', ' ', '2', ' ', '7', '1', ' ', '0', ' ', '0', ' ', '2', ' ', '0', ' ', '0', ' ', '0', ' ', '0', ' ', '0']) by {
        lemma_dec_join_step(b, 28);
        assert(seq!['0', ' ', '0', ' ', '0', ' ', '5', ' ', '8', ' ', '0', ' ', '0', ' ', '2', ' ', '2', '0', ' ', '0', ' ', '0', ' ', '2', ' ', '2', '6', ' ', '0', ' ', '0', ' ', '2', ' ', '2', '8', ' ', '0', ' ', '0', ' ', '2', ' ', '7', '1', ' ', '0', ' ', '0', ' ', '2', ' ', '0', ' ', '0', ' ', '0', ' ', '0'] + seq![' '] + dec_digits(b[28] as nat) =~= seq!['0', ' ', '0', ' ', '0', ' ', '5', ' ', '8', ' ', '0', ' ', '0', ' ', '2', ' ', '2', '0', ' ', '0', ' ', '0', ' ', '2', ' ', '2', '6', ' ', '0', ' ', '0', ' ', '2', ' ', '2', '8', ' ', '0', ' ', '0', ' ', '2', ' ', '7', '1', ' ', '0', ' ', '0', ' ', '2', ' ', '0', ' ', '0', ' ', '0', ' ', '0', ' ', '0']);
    }
    assert(dec_join(b.take(30)) == seq!['0', ' ', '0', ' ', '0', ' ', '5', ' ', '8', ' ', '0', ' ', '0', ' ', '2', ' ', '2', '0', ' ', '0', ' ', '0', ' ', '2', ' ', '2', '6', ' ', '0', ' ', '0', ' ', '2', ' ', '2', '8', ' ', '0', ' ', '0', ' ', '2', ' ', '7', '1', ' ', '0', ' ', '0', ' ', '2', ' ', '0', ' ', '0', ' ', '0', ' ', '0', ' ', '0', ' ', '0']) by {
        lemma_dec_join_step(b, 29);
        assert(seq!['0', ' ', '0', ' ', '0', ' ', '5', ' ', '8', ' ', '0', ' ', '0', ' ', '2', ' ', '2', '0', ' ', '0', ' ', '0', ' ', '2', ' ', '2', '6', ' ', '0', ' ', '0', ' ', '2', ' ', '2', '8', ' ', '0', ' ', '0', ' ', '2', ' ', '7', '1', ' ', '0', ' ', '0', ' ', '2', ' ', '0', ' ', '0', ' ', '0', ' ', '0', ' ', '0'] + seq![' '] + dec_digits(b[29] as nat) =~= seq!['0', ' ', '0', ' ', '0', ' ', '5', ' ', '8', ' ', '0', ' ', '0', ' ', '2', ' ', '2', '0', ' ', '0', ' ', '0', ' ', '2', ' ', '2', '6', ' ', '0', ' ', '0', ' ', '2', ' ', '2', '8', ' ', '0', ' ', '0', ' ', '2', ' ', '7', '1', ' ', '0', ' ', '0', ' ', '2', ' ', '0', ' ', '0', ' ', '0', ' ', '0', ' ', '0', ' ', '0']);
    }
    assert(dec_join(b.take(31)) == seq!['0', ' ', '0', ' ', '0', ' ', '5', ' ', '8', ' ', '0', ' ', '0', ' ', '2', ' ', '2', '0', ' ', '0', ' ', '0', ' ', '2', ' ', '2', '6', ' ', '0', ' ', '0', ' ', '2', ' ', '2', '8', ' ', '0', ' ', '0', ' ', '2', ' ', '7', '1', ' ', '0', ' ', '0', ' ', '2', ' ', '0', ' ', '0', ' ', '0', ' ', '0', ' ', '0', ' ', '0', ' ', '0']) by {
        lemma_dec_join_step(b, 30);
        assert(seq!['0', ' ', '0', ' ', '0', ' ', '5', ' ', '8', ' ', '0', ' ', '0', ' ', '2', ' ', '2', '0', ' ', '0', ' ', '0', ' ', '2', ' ', '2', '6', ' ', '0', ' ', '0', ' ', '2', ' ', '2', '8', ' ', '0', ' ', '0', ' ', '2', ' ', '7', '1', ' ', '0', ' ', '0', ' ', '2', ' ', '0', ' ', '0', ' ', '0', ' ', '0', ' ', '0', ' ', '0'] + seq![' '] + dec_digits(b[30] as nat) =~= seq!['0', ' ', '0', ' ', '0', ' ', '5', ' ', '8', ' ', '0', ' ', '0', ' ', '2', ' ', '2', '0', ' ', '0', ' ', '0', ' ', '2', ' ', '2', '6', ' ', '0', ' ', '0', ' ', '2', ' ', '2', '8', ' ', '0', ' ', '0', ' ', '2', ' ', '7', '1', ' ', '0', ' ', '0', ' ', '2', ' ', '0', ' ', '0', ' ', '0', ' ', '0', ' ', '0', ' ', '0', ' ', '0']);
    }
    assert(dec_join(b.take(32)) == seq!['0', ' ', '0', ' ', '0', ' ', '5', ' ', '8', ' ', '0', ' ', '0', ' ', '2', ' ', '2', '0', ' ', '0', ' ', '0', ' ', '2', ' ', '2', '6', ' ', '0', ' ', '0', ' ', '2', ' ', '2', '8', ' ', '0', ' ', '0', ' ', '2', ' ', '7', '1', ' ', '0', ' ', '0', ' ', '2', ' ', '0', ' ', '0', ' ', '0', ' ', '0', ' ', '0', ' ', '0', ' ', '0', ' ', '0']) by {
        lemma_dec_join_step(b, 31);
        assert(seq!['0', ' ', '0', ' ', '0', ' ', '5', ' ', '8', ' ', '0', ' ', '0', ' ', '2', ' ', '2', '0', ' ', '0', ' ', '0', ' ', '2', ' ', '2', '6', ' ', '0', ' ', '0', ' ', '2', ' ', '2', '8', ' ', '0', ' ', '0', ' ', '2', ' ', '7', '1', ' ', '0', ' ', '0', ' ', '2', ' ', '0', ' ', '0', ' ', '0', ' ', '0', ' ', '0', ' ', '0', ' ', '0'] + seq![' '] + dec_digits(b[31] as nat) =~= seq!['0', ' ', '0', ' ', '0', ' ', '5', ' ', '8', ' ', '0', ' ', '0', ' ', '2', ' ', '2', '0', ' ', '0', ' ', '0', ' ', '2', ' ', '2', '6', ' ', '0', ' ', '0', ' ', '2', ' ', '2', '8', ' ', '0', ' ', '0', ' ', '2', ' ', '7', '1', ' ', '0', ' ', '0', ' ', '2', ' ', '0', ' ', '0', ' ', '0', ' ', '0', ' ', '0', ' ', '0', ' ', '0', ' ', '0']);
    }
    assert(dec_join(b.take(33)) == seq!['0', ' ', '0', ' ', '0', ' ', '5', ' ', '8', ' ', '0', ' ', '0', ' ', '2', ' ', '2', '0', ' ', '0', ' ', '0', ' ', '2', ' ', '2', '6', ' ', '0', ' ', '0', ' ', '2', ' ', '2', '8', ' ', '0', ' ', '0', ' ', '2', ' ', '7', '1', ' ', '0', ' ', '0', ' ', '2', ' ', '0', ' ', '0', ' ', '0', ' ', '0', ' ', '0', ' ', '0', ' ', '0', ' ', '0', ' ', '0']) by {
        lemma_dec_join_step(b, 32);
        assert(seq!['0', ' ', '0', ' ', '0', ' ', '5', ' ', '8', ' ', '0', ' ', '0', ' ', '2', ' ', '2', '0', ' ', '0', ' ', '0', ' ', '2', ' ', '2', '6', ' ', '0', ' ', '0', ' ', '2', ' ', '2', '8', ' ', '0', ' ', '0', ' ', '2', ' ', '7', '1', ' ', '0', ' ', '0', ' ', '2', ' ', '0', ' ', '0', ' ', '0', ' ', '0', ' ', '0', ' ', '0', ' ', '0', ' ', '0'] + seq![' '] + dec_digits(b[32] as nat) =~= seq!['0', ' ', '0', ' ', '0', ' ', '5', ' ', '8', ' ', '0', ' ', '0', ' ', '2', ' ', '2', '0', ' ', '0', ' ', '0', ' ', '2', ' ', '2', '6', ' ', '0', ' ', '0', ' ', '2', ' ', '2', '8', ' ', '0', ' ', '0', ' ', '2', ' ', '7', '1', ' ', '0', ' ', '0', ' ', '2', ' ', '0', ' ', '0', ' ', '0', ' ', '0', ' ', '0', ' ', '0', ' ', '0', ' ', '0', ' ', '0']);
    }
    assert(dec_join(b.take(34)) == seq!['0', ' ', '0', ' ', '0', ' ', '5', ' ', '8', ' ', '0', ' ', '0', ' ', '2', ' ', '2', '0', ' ', '0', ' ', '0', ' ', '2', ' ', '2', '6', ' ', '0', ' ', '0', ' ', '2', ' ', '2', '8', ' ', '0', ' ', '0', ' ', '2', ' ', '7', '1', ' ', '0', ' ', '0', ' ', '2', ' ', '0', ' ', '0', ' ', '0', ' ', '0', ' ', '0', ' ', '0', ' ', '0', ' ', '0', ' ', '0', ' ', '0']) by {
        lemma_dec_join_step(b, 33);
        assert(seq!['0', ' ', '0', ' ', '0', ' ', '5', ' ', '8', ' ', '0', ' ', '0', ' ', '2', ' ', '2', '0', ' ', '0', ' ', '0', ' ', '2', ' ', '2', '6', ' ', '0', ' ', '0', ' ', '2', ' ', '2', '8', ' ', '0', ' ', '0', ' ', '2', ' ', '7', '1', ' ', '0', ' ', '0', ' ', '2', ' ', '0', ' ', '0', ' ', '0', ' ', '0', ' ', '0', ' ', '0', ' ', '0', ' ', '0', ' ', '0'] + seq![' '] + dec_digits(b[33] as nat) =~= seq!['0', ' ', '0', ' ', '0', ' ', '5', ' ', '8', ' ', '0', ' ', '0', ' ', '2', ' ', '2', '0', ' ', '0', ' ', '0', ' ', '2', ' ', '2', '6', ' ', '0', ' ', '0', ' ', '2', ' ', '2', '8', ' ', '0', ' ', '0', ' ', '2', ' ', '7', '1', ' ', '0', ' ', '0', ' ', '2', ' ', '0', ' ', '0', ' ', '0', ' ', '0', ' ', '0', ' ', '0', ' ', '0', ' ', '0', ' ', '0', ' ', '0']);
    }
    assert(dec_join(b.take(35)) == seq!['0', ' ', '0', ' ', '0', ' ', '5', ' ', '8', ' ', '0', ' ', '0', ' ', '2', ' ', '2', '0', ' ', '0', ' ', '0', ' ', '2', ' ', '2', '6', ' ', '0', ' ', '0', ' ', '2', ' ', '2', '8', ' ', '0', ' ', '0', ' ', '2', ' ', '7', '1', ' ', '0', ' ', '0', ' ', '2', ' ', '0', ' ', '0', ' ', '0', ' ', '0', ' ', '0', ' ', '0', ' ', '0', ' ', '0', ' ', '0', ' ', '0', ' ', '0']) by {
        lemma_dec_join_step(b, 34);
        assert(seq!['0', ' ', '0', ' ', '0', ' ', '5', ' ', '8', ' ', '0', ' ', '0', ' ', '2', ' ', '2', '0', ' ', '0', ' ', '0', ' ', '2', ' ', '2', '6', ' ', '0', ' ', '0', ' ', '2', ' ', '2', '8', ' ', '0', ' ', '0', ' ', '2', ' ', '7', '1', ' ', '0', ' ', '0', ' ', '2', ' ', '0', ' ', '0', ' ', '0', ' ', '0', ' ', '0', ' ', '0', ' ', '0', ' ', '0', ' ', '0', ' ', '0'] + seq![' '] + dec_digits(b[34] as nat) =~= seq!['0', ' ', '0', ' ', '0', ' ', '5', ' ', '8', ' ', '0', ' ', '0', ' ', '2', ' ', '2', '0', ' ', '0', ' ', '0', ' ', '2', ' ', '2', '6', ' ', '0', ' ', '0', ' ', '2', ' ', '2', '8', ' ', '0', ' ', '0', ' ', '2', ' ', '7', '1', ' ', '0', ' ', '0', ' ', '2', ' ', '0', ' ', '0', ' ', '0', ' ', '0', ' ', '0', ' ', '0', ' ', '0', ' ', '0', ' ', '0', ' ', '0', ' ', '0']);
    }
    assert(dec_join(b.take(36)) == seq!['0', ' ', '0', ' ', '0', ' ', '5', ' ', '8', ' ', '0', ' ', '0', ' ', '2', ' ', '2', '0', ' ', '0', ' ', '0', ' ', '2', ' ', '2', '6', ' ', '0', ' ', '0', ' ', '2', ' ', '2', '8', ' ', '0', ' ', '0', ' ', '2', ' ', '7', '1', ' ', '0', ' ', '0', ' ', '2', ' ', '0', ' ', '0', ' ', '0', ' ', '0', ' ', '0', ' ', '0', ' ', '0', ' ', '0', ' ', '0', ' ', '0', ' ', '0', ' ', '0']) by {
        lemma_dec_join_step(b, 35);
        assert(seq!['0', ' ', '0', ' ', '0', ' ', '5', ' ', '8', ' ', '0', ' ', '0', ' ', '2', ' ', '2', '0', ' ', '0', ' ', '0', ' ', '2', ' ', '2', '6', ' ', '0', ' ', '0', ' ', '2', ' ', '2', '8', ' ', '0', ' ', '0', ' ', '2', ' ', '7', '1', ' ', '0', ' ', '0', ' ', '2', ' ', '0', ' ', '0', ' ', '0', ' ', '0', ' ', '0', ' ', '0', ' ', '0', ' ', '0', ' ', '0', ' ', '0', ' ', '0'] + seq![' '] + dec_digits(b[35] as nat) =~= seq!['0', ' ', '0', ' ', '0', ' ', '5', ' ', '8', ' ', '0', ' ', '0', ' ', '2', ' ', '2', '0', ' ', '0', ' ', '0', ' ', '2', ' ', '2', '6', ' ', '0', ' ', '0', ' ', '2', ' ', '2', '8', ' ', '0', ' ', '0', ' ', '2', ' ', '7', '1', ' ', '0', ' ', '0', ' ', '2', ' ', '0', ' ', '0', ' ', '0', ' ', '0', ' ', '0', ' ', '0', ' ', '0', ' ', '0', ' ', '0', ' ', '0', ' ', '0', ' ', '0']);
    }
    assert(dec_join(b.take(37)) == seq!['0', ' ', '0', ' ', '0', ' ', '5', ' ', '8', ' ', '0', ' ', '0', ' ', '2', ' ', '2', '0', ' ', '0', ' ', '0', ' ', '2', ' ', '2', '6', ' ', '0', ' ', '0', ' ', '2', ' ', '2', '8', ' ', '0', ' ', '0', ' ', '2', ' ', '7', '1', ' ', '0', ' ', '0', ' ', '2', ' ', '0', ' ', '0', ' ', '0', ' ', '0', ' ', '0', ' ', '0', ' ', '0', ' ', '0', ' ', '0', ' ', '0', ' ', '0', ' ', '0', ' ', '0']) by {
        lemma_dec_join_step(b, 36);
        assert(seq!['0', ' ', '0', ' ', '0', ' ', '5', ' ', '8', ' ', '0', ' ', '0', ' ', '2', ' ', '2', '0', ' ', '0', ' ', '0', ' ', '2', ' ', '2', '6', ' ', '0', ' ', '0', ' ', '2', ' ', '2', '8', ' ', '0', ' ', '0', ' ', '2', ' ', '7', '1', ' ', '0', ' ', '0', ' ', '2', ' ', '0', ' ', '0', ' ', '0', ' ', '0', ' ', '0', ' ', '0', ' ', '0', ' ', '0', ' ', '0', ' ', '0', ' ', '0', ' ', '0'] + seq![' '] + dec_digits(b[36] as nat) =~= seq!['0', ' ', '0', ' ', '0', ' ', '5', ' ', '8', ' ', '0', ' ', '0', ' ', '2', ' ', '2', '0', ' ', '0', ' ', '0', ' ', '2', ' ', '2', '6', ' ', '0', ' ', '0', ' ', '2', ' ', '2', '8', ' ', '0', ' ', '0', ' ', '2', ' ', '7', '1', ' ', '0', ' ', '0', ' ', '2', ' ', '0', ' ', '0', ' ', '0', ' ', '0', ' ', '0', ' ', '0', ' ', '0', ' ', '0', ' ', '0', ' ', '0', ' ', '0', ' ', '0', ' ', '0']);
    }
    assert(dec_join(b.take(38)) == seq!['0', ' ', '0', ' ', '0', ' ', '5', ' ', '8', ' ', '0', ' ', '0', ' ', '2', ' ', '2', '0', ' ', '0', ' ', '0', ' ', '2', ' ', '2', '6', ' ', '0', ' ', '0', ' ', '2', ' ', '2', '8', ' ', '0', ' ', '0', ' ', '2', ' ', '7', '1', ' ', '0', ' ', '0', ' ', '2', ' ', '0', ' ', '0', ' ', '0', ' ', '0', ' ', '0', ' ', '0', ' ', '0', ' ', '0', ' ', '0', ' ', '0', ' ', '0', ' ', '0', ' ', '0', ' ', '0']) by {
        lemma_dec_join_step(b, 37);
        assert(seq!['0', ' ', '0', ' ', '0', ' ', '5', ' ', '8', ' ', '0', ' ', '0', ' ', '2', ' ', '2', '0', ' ', '0', ' ', '0', ' ', '2', ' ', '2', '6', ' ', '0', ' ', '0', ' ', '2', ' ', '2', '8', ' ', '0', ' ', '0', ' ', '2', ' ', '7', '1', ' ', '0', ' ', '0', ' ', '2', ' ', '0', ' ', '0', ' ', '0', ' ', '0', ' ', '0', ' ', '0', ' ', '0', ' ', '0', ' ', '0', ' ', '0', ' ', '0', ' ', '0', ' ', '0'] + seq![' '] + dec_digits(b[37] as nat) =~= seq!['0', ' ', '0', ' ', '0', ' ', '5', ' ', '8', ' ', '0', ' ', '0', ' ', '2', ' ', '2', '0', ' ', '0', ' ', '0', ' ', '2', ' ', '2', '6', ' ', '0', ' ', '0', ' ', '2', ' ', '2', '8', ' ', '0', ' ', '0', ' ', '2', ' ', '7', '1', ' ', '0', ' ', '0', ' ', '2', ' ', '0', ' ', '0', ' ', '0', ' ', '0', ' ', '0', ' ', '0', ' ', '0', ' ', '0', ' ', '0', ' ', '0', ' ', '0', ' ', '0', ' ', '0', ' ', '0']);
    }
    assert(dec_join(b.take(39)) == seq!['0', ' ', '0', ' ', '0', ' ', '5', ' ', '8', ' ', '0', ' ', '0', ' ', '2', ' ', '2', '0', ' ', '0', ' ', '0', ' ', '2', ' ', '2', '6', ' ', '0', ' ', '0', ' ', '2', ' ', '2', '8', ' ', '0', ' ', '0', ' ', '2', ' ', '7', '1', ' ', '0', ' ', '0', ' ', '2', ' ', '0', ' ', '0', ' ', '0', ' ', '0', ' ', '0', ' ', '0', ' ', '0', ' ', '0', ' ', '0', ' ', '0', ' ', '0', ' ', '0', ' ', '0', ' ', '0', ' ', '0']) by {
        lemma_dec_join_step(b, 38);
        assert(seq!['0', ' ', '0', ' ', '0', ' ', '5', ' ', '8', ' ', '0', ' ', '0', ' ', '2', ' ', '2', '0', ' ', '0', ' ', '0', ' ', '2', ' ', '2', '6', ' ', '0', ' ', '0', ' ', '2', ' ', '2', '8', ' ', '0', ' ', '0', ' ', '2', ' ', '7', '1', ' ', '0', ' ', '0', ' ', '2', ' ', '0', ' ', '0', ' ', '0', ' ', '0', ' ', '0', ' ', '0', ' ', '0', ' ', '0', ' ', '0', ' ', '0', ' ', '0', ' ', '0', ' ', '0', ' ', '0'] + seq![' '] + dec_digits(b[38] as nat) =~= seq!['0', ' ', '0', ' ', '0', ' ', '5', ' ', '8', ' ', '0', ' ', '0', ' ', '2', ' ', '2', '0', ' ', '0', ' ', '0', ' ', '2', ' ', '2', '6', ' ', '0', ' ', '0', ' ', '2', ' ', '2', '8', ' ', '0', ' ', '0', ' ', '2', ' ', '7', '1', ' ', '0', ' ', '0', ' ', '2', ' ', '0', ' ', '0', ' ', '0', ' ', '0', ' ', '0', ' ', '0', ' ', '0', ' ', '0', ' ', '0', ' ', '0', ' ', '0', ' ', '0', ' ', '0', ' ', '0', ' ', '0']);
    }
    assert(dec_join(b.take(40)) == seq!['0', ' ', '0', ' ', '0', ' ', '5', ' ', '8', ' ', '0', ' ', '0', ' ', '2', ' ', '2', '0', ' ', '0', ' ', '0', ' ', '2', ' ', '2', '6', ' ', '0', ' ', '0', ' ', '2', ' ', '2', '8', ' ', '0', ' ', '0', ' ', '2', ' ', '7', '1', ' ', '0', ' ', '0', ' ', '2', ' ', '0', ' ', '0', ' ', '0', ' ', '0', ' ', '0', ' ', '0', ' ', '0', ' ', '0', ' ', '0', ' ', '0', ' ', '0', ' ', '0', ' ', '0', ' ', '0', ' ', '0', ' ', '0']) by {
        lemma_dec_join_step(b, 39);
        assert(seq!['0', ' ', '0', ' ', '0', ' ', '5', ' ', '8', ' ', '0', ' ', '0', ' ', '2', ' ', '2', '0', ' ', '0', ' ', '0', ' ', '2', ' ', '2', '6', ' ', '0', ' ', '0', ' ', '2', ' ', '2', '8', ' ', '0', ' ', '0', ' ', '2', ' ', '7', '1', ' ', '0', ' ', '0', ' ', '2', ' ', '0', ' ', '0', ' ', '0', ' ', '0', ' ', '0', ' ', '0', ' ', '0', ' ', '0', ' ', '0', ' ', '0', ' ', '0', ' ', '0', ' ', '0', ' ', '0', ' ', '0'] + seq![' '] + dec_digits(b[39] as nat) =~= seq!['0', ' ', '0', ' ', '0', ' ', '5', ' ', '8', ' ', '0', ' ', '0', ' ', '2', ' ', '2', '0', ' ', '0', ' ', '0', ' ', '2', ' ', '2', '6', ' ', '0', ' ', '0', ' ', '2', ' ', '2', '8', ' ', '0', ' ', '0', ' ', '2', ' ', '7', '1', ' ', '0', ' ', '0', ' ', '2', ' ', '0', ' ', '0', ' ', '0', ' ', '0', ' ', '0', ' ', '0', ' ', '0', ' ', '0', ' ', '0', ' ', '0', ' ', '0', ' ', '0', ' ', '0', ' ', '0', ' ', '0', ' ', '0']);
    }
    assert(dec_join(b.take(41)) == seq!['0', ' ', '0', ' ', '0', ' ', '5', ' ', '8', ' ', '0', ' ', '0', ' ', '2', ' ', '2', '0', ' ', '0', ' ', '0', ' ', '2', ' ', '2', '6', ' ', '0', ' ', '0', ' ', '2', ' ', '2', '8', ' ', '0', ' ', '0', ' ', '2', ' ', '7', '1', ' ', '0', ' ', '0', ' ', '2', ' ', '0', ' ', '0', ' ', '0', ' ', '0', ' ', '0', ' ', '0', ' ', '0', ' ', '0', ' ', '0', ' ', '0', ' ', '0', ' ', '0', ' ', '0', ' ', '0', ' ', '0', ' ', '0', ' ', '0']) by {
        lemma_dec_join_step(b, 40);
        assert(seq!['0', ' ', '0', ' ', '0', ' ', '5', ' ', '8', ' ', '0', ' ', '0', ' ', '2', ' ', '2', '0', ' ', '0', ' ', '0', ' ', '2', ' ', '2', '6', ' ', '0', ' ', '0', ' ', '2', ' ', '2', '8', ' ', '0', ' ', '0', ' ', '2', ' ', '7', '1', ' ', '0', ' ', '0', ' ', '2', ' ', '0', ' ', '0', ' ', '0', ' ', '0', ' ', '0', ' ', '0', ' ', '0', ' ', '0', ' ', '0', ' ', '0', ' ', '0', ' ', '0', ' ', '0', ' ', '0', ' ', '0', ' ', '0'] + seq![' '] + dec_digits(b[40] as nat) =~= seq!['0', ' ', '0', ' ', '0', ' ', '5', ' ', '8', ' ', '0', ' ', '0', ' ', '2', ' ', '2', '0', ' ', '0', ' ', '0', ' ', '2', ' ', '2', '6', ' ', '0', ' ', '0', ' ', '2', ' ', '2', '8', ' ', '0', ' ', '0', ' ', '2', ' ', '7', '1', ' ', '0', ' ', '0', ' ', '2', ' ', '0', ' ', '0', ' ', '0', ' ', '0', ' ', '0', ' ', '0', ' ', '0', ' ', '0', ' ', '0', ' ', '0', ' ', '0', ' ', '0', ' ', '0', ' ', '0', ' ', '0', ' ', '0', ' ', '0']);
    }
    assert(dec_join(b.take(42)) == seq!['0', ' ', '0', ' ', '0', ' ', '5', ' ', '8', ' ', '0', ' ', '0', ' ', '2', ' ', '2', '0', ' ', '0', ' ', '0', ' ', '2', ' ', '2', '6', ' ', '0', ' ', '0', ' ', '2', ' ', '2', '8', ' ', '0', ' ', '0', ' ', '2', ' ', '7', '1', ' ', '0', ' ', '0', ' ', '2', ' ', '0', ' ', '0', ' ', '0', ' ', '0', ' ', '0', ' ', '0', ' ', '0', ' ', '0', ' ', '0', ' ', '0', ' ', '0', ' ', '0', ' ', '0', ' ', '0', ' ', '0', ' ', '0', ' ', '0', ' ', '0']) by {
        lemma_dec_join_step(b, 41);
        assert(seq!['0', ' ', '0', ' ', '0', ' ', '5', ' ', '8', ' ', '0', ' ', '0', ' ', '2', ' ', '2', '0', ' ', '0', ' ', '0', ' ', '2', ' ', '2', '6', ' ', '0', ' ', '0', ' ', '2', ' ', '2', '8', ' ', '0', ' ', '0', ' ', '2', ' ', '7', '1', ' ', '0', ' ', '0', ' ', '2', ' ', '0', ' ', '0', ' ', '0', ' ', '0', ' ', '0', ' ', '0', ' ', '0', ' ', '0', ' ', '0', ' ', '0', ' ', '0', ' ', '0', ' ', '0', ' ', '0', ' ', '0', ' ', '0', ' ', '0'] + seq![' '] + dec_digits(b[41] as nat) =~= seq!['0', ' ', '0', ' ', '0', ' ', '5', ' ', '8', ' ', '0', ' ', '0', ' ', '2', ' ', '2', '0', ' ', '0', ' ', '0', ' ', '2', ' ', '2', '6', ' ', '0', ' ', '0', ' ', '2', ' ', '2', '8', ' ', '0', ' ', '0', ' ', '2', ' ', '7', '1', ' ', '0', ' ', '0', ' ', '2', ' ', '0', ' ', '0', ' ', '0', ' ', '0', ' ', '0', ' ', '0', ' ', '0', ' ', '0', ' ', '0', ' ', '0', ' ', '0', ' ', '0', ' ', '0', ' ', '0', ' ', '0', ' ', '0', ' ', '0', ' ', '0']);
    }
    assert(dec_join(b.take(43)) == seq!['0', ' ', '0', ' ', '0', ' ', '5', ' ', '8', ' ', '0', ' ', '0', ' ', '2', ' ', '2', '0', ' ', '0', ' ', '0', ' ', '2', ' ', '2', '6', ' ', '0', ' ', '0', ' ', '2', ' ', '2', '8', ' ', '0', ' ', '0', ' ', '2', ' ', '7', '1', ' ', '0', ' ', '0', ' ', '2', ' ', '0', ' ', '0', ' ', '0', ' ', '0', ' ', '0', ' ', '0', ' ', '0', ' ', '0', ' ', '0', ' ', '0', ' ', '0', ' ', '0', ' ', '0', ' ', '0', ' ', '0', ' ', '0', ' ', '0', ' ', '0', ' ', '0']) by {
        lemma_dec_join_step(b, 42);
        assert(seq!['0', ' ', '0', ' ', '0', ' ', '5', ' ', '8', ' ', '0', ' ', '0', ' ', '2', ' ', '2', '0', ' ', '0', ' ', '0', ' ', '2', ' ', '2', '6', ' ', '0', ' ', '0', ' ', '2', ' ', '2', '8', ' ', '0', ' ', '0', ' ', '2', ' ', '7', '1', ' ', '0', ' ', '0', ' ', '2', ' ', '0', ' ', '0', ' ', '0', ' ', '0', ' ', '0', ' ', '0', ' ', '0', ' ', '0', ' ', '0', ' ', '0', ' ', '0', ' ', '0', ' ', '0', ' ', '0', ' ', '0', ' ', '0', ' ', '0', ' ', '0'] + seq![' '] + dec_digits(b[42] as nat) =~= seq!['0', ' ', '0', ' ', '0', ' ', '5', ' ', '8', ' ', '0', ' ', '0', ' ', '2', ' ', '2', '0', ' ', '0', ' ', '0', ' ', '2', ' ', '2', '6', ' ', '0', ' ', '0', ' ', '2', ' ', '2', '8', ' ', '0', ' ', '0', ' ', '2', ' ', '7', '1', ' ', '0', ' ', '0', ' ', '2', ' ', '0', ' ', '0', ' ', '0', ' ', '0', ' ', '0', ' ', '0', ' ', '0', ' ', '0', ' ', '0', ' ', '0', ' ', '0', ' ', '0', ' ', '0', ' ', '0', ' ', '0', ' ', '0', ' ', '0', ' ', '0', ' ', '0']);
    }
    assert(dec_join(b.take(44)) == seq!['0', ' ', '0', ' ', '0', ' ', '5', ' ', '8', ' ', '0', ' ', '0', ' ', '2', ' ', '2', '0', ' ', '0', ' ', '0', ' ', '2', ' ', '2', '6', ' ', '0', ' ', '0', ' ', '2', ' ', '2', '8', ' ', '0', ' ', '0', ' ', '2', ' ', '7', '1', ' ', '0', ' ', '0', ' ', '2', ' ', '0', ' ', '0', ' ', '0', ' ', '0', ' ', '0', ' ', '0', ' ', '0', ' ', '0', ' ', '0', ' ', '0', ' ', '0', ' ', '0', ' ', '0', ' ', '0', ' ', '0', ' ', '0', ' ', '0', ' ', '0', ' ', '0', ' ', '0']) by {
        lemma_dec_join_step(b, 43);
        assert(seq!['0', ' ', '0', ' ', '0', ' ', '5', ' ', '8', ' ', '0', ' ', '0', ' ', '2', ' ', '2', '0', ' ', '0', ' ', '0', ' ', '2', ' ', '2', '6', ' ', '0', ' ', '0', ' ', '2', ' ', '2', '8', ' ', '0', ' ', '0', ' ', '2', ' ', '7', '1', ' ', '0', ' ', '0', ' ', '2', ' ', '0', ' ', '0', ' ', '0', ' ', '0', ' ', '0', ' ', '0', ' ', '0', ' ', '0', ' ', '0', ' ', '0', ' ', '0', ' ', '0', ' ', '0', ' ', '0', ' ', '0', ' ', '0', ' ', '0', ' ', '0', ' ', '0'] + seq![' '] + dec_digits(b[43] as nat) =~= seq!['0', ' ', '0', ' ', '0', ' ', '5', ' ', '8', ' ', '0', ' ', '0', ' ', '2', ' ', '2', '0', ' ', '0', ' ', '0', ' ', '2', ' ', '2', '6', ' ', '0', ' ', '0', ' ', '2', ' ', '2', '8', ' ', '0', ' ', '0', ' ', '2', ' ', '7', '1', ' ', '0', ' ', '0', ' ', '2', ' ', '0', ' ', '0', ' ', '0', ' ', '0', ' ', '0', ' ', '0', ' ', '0', ' ', '0', ' ', '0', ' ', '0', ' ', '0', ' ', '0', ' ', '0', ' ', '0', ' ', '0', ' ', '0', ' ', '0', ' ', '0', ' ', '0', ' ', '0']);
    }
    assert(b.take(44) =~= b);
    assert(dec_join(b) == "0 0 0 5 8 0 0 2 20 0 0 2 26 0 0 2 28 0 0 2 71 0 0 2 0 0 0 0 0 0 0 0 0 0 0 0 0 0 0 0 0 0 0 0"@) by {
        reveal_strlit("0 0 0 5 8 0 0 2 20 0 0 2 26 0 0 2 28 0 0 2 71 0 0 2 0 0 0 0 0 0 0 0 0 0 0 0 0 0 0 0 0 0 0 0");
    }
    law_space_dec_roundtrip(b);
}

proof fn lemma_payload_seven()
    ensures
        space_dec("7"@) == Ok::<Seq<u8>, Seq<char>>(seq![7u8]),
{
    let b: Seq<u8> = seq![7u8];
    lemma_decimal_texts();
    assert(dec_join(b) == "7"@) by {
        reveal_strlit("7");
    }
    law_space_dec_roundtrip(b);
}

} // verus!
