//! The keys under which the metrics are registered.
use crate::fnv::fnv_step;
use crate::fnv::four_steps;
use crate::fnv::lemma_four_steps;
use crate::fnv::lemma_step;
use crate::fnv::metric_key;
use crate::metrics::metric_names;
use vstd::prelude::*;
use vstd::utf8::encode_utf8;
use vstd::utf8::is_ascii_chars_encode_utf8;

verus! {

/// The key of `current_power_watts`.
proof fn key_of_current_power()
    ensures
        metric_key("current_power_watts"@) == 0xB537_410B_1AE2_D2CF,
{
    reveal_strlit("current_power_watts");
    let name = "current_power_watts"@;
    let bytes = encode_utf8(name).push(0xFF);
    is_ascii_chars_encode_utf8(name);
    lemma_four_steps(bytes, 0);
    lemma_four_steps(bytes, 4);
    lemma_four_steps(bytes, 8);
    lemma_four_steps(bytes, 12);
    lemma_four_steps(bytes, 16);
    assert(bytes.take(0) =~= Seq::empty());
    assert(bytes.take(20) =~= bytes);
    assert(
        four_steps(four_steps(four_steps(four_steps(four_steps(0xCBF2_9CE4_8422_2325u64, 99u8,
        117u8, 114u8, 114u8), 101u8, 110u8, 116u8, 95u8), 112u8, 111u8, 119u8, 101u8), 114u8, 95u8,
        119u8, 97u8), 116u8, 116u8, 115u8, 255u8) == 0xB537_410B_1AE2_D2CFu64
    ) by (bit_vector);
}

/// The key of `total_energy_watt_hours`.
proof fn key_of_total_energy()
    ensures
        metric_key("total_energy_watt_hours"@) == 0xF1C1_38F9_E9A9_C988,
{
    reveal_strlit("total_energy_watt_hours");
    let name = "total_energy_watt_hours"@;
    let bytes = encode_utf8(name).push(0xFF);
    is_ascii_chars_encode_utf8(name);
    lemma_four_steps(bytes, 0);
    lemma_four_steps(bytes, 4);
    lemma_four_steps(bytes, 8);
    lemma_four_steps(bytes, 12);
    lemma_four_steps(bytes, 16);
    lemma_four_steps(bytes, 20);
    assert(bytes.take(0) =~= Seq::empty());
    assert(bytes.take(24) =~= bytes);
    assert(
        four_steps(four_steps(four_steps(four_steps(four_steps(four_steps(
        0xCBF2_9CE4_8422_2325u64, 116u8, 111u8, 116u8, 97u8), 108u8, 95u8, 101u8, 110u8), 101u8,
        114u8, 103u8, 121u8), 95u8, 119u8, 97u8, 116u8), 116u8, 95u8, 104u8, 111u8), 117u8, 114u8,
        115u8, 255u8) == 0xF1C1_38F9_E9A9_C988u64
    ) by (bit_vector);
}

/// The key of `cumulative_energy_day_watt_hours`.
proof fn key_of_cumulative_energy_day()
    ensures
        metric_key("cumulative_energy_day_watt_hours"@) == 0xD2CD_74B3_AC3D_6CB0,
{
    reveal_strlit("cumulative_energy_day_watt_hours");
    let name = "cumulative_energy_day_watt_hours"@;
    let bytes = encode_utf8(name).push(0xFF);
    is_ascii_chars_encode_utf8(name);
    lemma_four_steps(bytes, 0);
    lemma_four_steps(bytes, 4);
    lemma_four_steps(bytes, 8);
    lemma_four_steps(bytes, 12);
    lemma_four_steps(bytes, 16);
    lemma_four_steps(bytes, 20);
    lemma_four_steps(bytes, 24);
    lemma_four_steps(bytes, 28);
    lemma_step(bytes, 32);
    assert(bytes.take(0) =~= Seq::empty());
    assert(bytes.take(33) =~= bytes);
    assert(
        fnv_step(four_steps(four_steps(four_steps(four_steps(four_steps(four_steps(
        four_steps(four_steps(0xCBF2_9CE4_8422_2325u64, 99u8, 117u8, 109u8, 117u8), 108u8, 97u8,
        116u8, 105u8), 118u8, 101u8, 95u8, 101u8), 110u8, 101u8, 114u8, 103u8), 121u8, 95u8, 100u8,
        97u8), 121u8, 95u8, 119u8, 97u8), 116u8, 116u8, 95u8, 104u8), 111u8, 117u8, 114u8, 115u8),
        255u8) == 0xD2CD_74B3_AC3D_6CB0u64
    ) by (bit_vector);
}

/// The key of `cumulative_energy_week_watt_hours`.
proof fn key_of_cumulative_energy_week()
    ensures
        metric_key("cumulative_energy_week_watt_hours"@) == 0x4CCE_D393_F098_2EBE,
{
    reveal_strlit("cumulative_energy_week_watt_hours");
    let name = "cumulative_energy_week_watt_hours"@;
    let bytes = encode_utf8(name).push(0xFF);
    is_ascii_chars_encode_utf8(name);
    lemma_four_steps(bytes, 0);
    lemma_four_steps(bytes, 4);
    lemma_four_steps(bytes, 8);
    lemma_four_steps(bytes, 12);
    lemma_four_steps(bytes, 16);
    lemma_four_steps(bytes, 20);
    lemma_four_steps(bytes, 24);
    lemma_four_steps(bytes, 28);
    lemma_step(bytes, 32);
    lemma_step(bytes, 33);
    assert(bytes.take(0) =~= Seq::empty());
    assert(bytes.take(34) =~= bytes);
    assert(
        fnv_step(fnv_step(four_steps(four_steps(four_steps(four_steps(four_steps(four_steps(
        four_steps(four_steps(0xCBF2_9CE4_8422_2325u64, 99u8, 117u8, 109u8, 117u8), 108u8, 97u8,
        116u8, 105u8), 118u8, 101u8, 95u8, 101u8), 110u8, 101u8, 114u8, 103u8), 121u8, 95u8, 119u8,
        101u8), 101u8, 107u8, 95u8, 119u8), 97u8, 116u8, 116u8, 95u8), 104u8, 111u8, 117u8, 114u8),
        115u8), 255u8) == 0x4CCE_D393_F098_2EBEu64
    ) by (bit_vector);
}

/// The key of `cumulative_energy_month_watt_hours`.
proof fn key_of_cumulative_energy_month()
    ensures
        metric_key("cumulative_energy_month_watt_hours"@) == 0x323A_3CEC_71B2_84FC,
{
    reveal_strlit("cumulative_energy_month_watt_hours");
    let name = "cumulative_energy_month_watt_hours"@;
    let bytes = encode_utf8(name).push(0xFF);
    is_ascii_chars_encode_utf8(name);
    lemma_four_steps(bytes, 0);
    lemma_four_steps(bytes, 4);
    lemma_four_steps(bytes, 8);
    lemma_four_steps(bytes, 12);
    lemma_four_steps(bytes, 16);
    lemma_four_steps(bytes, 20);
    lemma_four_steps(bytes, 24);
    lemma_four_steps(bytes, 28);
    lemma_step(bytes, 32);
    lemma_step(bytes, 33);
    lemma_step(bytes, 34);
    assert(bytes.take(0) =~= Seq::empty());
    assert(bytes.take(35) =~= bytes);
    assert(
        fnv_step(fnv_step(fnv_step(four_steps(four_steps(four_steps(four_steps(four_steps(
        four_steps(four_steps(four_steps(0xCBF2_9CE4_8422_2325u64, 99u8, 117u8, 109u8, 117u8),
        108u8, 97u8, 116u8, 105u8), 118u8, 101u8, 95u8, 101u8), 110u8, 101u8, 114u8, 103u8), 121u8,
        95u8, 109u8, 111u8), 110u8, 116u8, 104u8, 95u8), 119u8, 97u8, 116u8, 116u8), 95u8, 104u8,
        111u8, 117u8), 114u8), 115u8), 255u8) == 0x323A_3CEC_71B2_84FCu64
    ) by (bit_vector);
}

/// The key of `import_unit_price_centipence`.
proof fn key_of_import_unit_price()
    ensures
        metric_key("import_unit_price_centipence"@) == 0xC067_3103_1177_EF73,
{
    reveal_strlit("import_unit_price_centipence");
    let name = "import_unit_price_centipence"@;
    let bytes = encode_utf8(name).push(0xFF);
    is_ascii_chars_encode_utf8(name);
    lemma_four_steps(bytes, 0);
    lemma_four_steps(bytes, 4);
    lemma_four_steps(bytes, 8);
    lemma_four_steps(bytes, 12);
    lemma_four_steps(bytes, 16);
    lemma_four_steps(bytes, 20);
    lemma_four_steps(bytes, 24);
    lemma_step(bytes, 28);
    assert(bytes.take(0) =~= Seq::empty());
    assert(bytes.take(29) =~= bytes);
    assert(
        fnv_step(four_steps(four_steps(four_steps(four_steps(four_steps(four_steps(
        four_steps(0xCBF2_9CE4_8422_2325u64, 105u8, 109u8, 112u8, 111u8), 114u8, 116u8, 95u8,
        117u8), 110u8, 105u8, 116u8, 95u8), 112u8, 114u8, 105u8, 99u8), 101u8, 95u8, 99u8, 101u8),
        110u8, 116u8, 105u8, 112u8), 101u8, 110u8, 99u8, 101u8), 255u8) == 0xC067_3103_1177_EF73u64
    ) by (bit_vector);
}

/// The key of `import_standing_charge_centipence`.
proof fn key_of_import_price_standing_charge()
    ensures
        metric_key("import_standing_charge_centipence"@) == 0xACD1_F698_D781_0958,
{
    reveal_strlit("import_standing_charge_centipence");
    let name = "import_standing_charge_centipence"@;
    let bytes = encode_utf8(name).push(0xFF);
    is_ascii_chars_encode_utf8(name);
    lemma_four_steps(bytes, 0);
    lemma_four_steps(bytes, 4);
    lemma_four_steps(bytes, 8);
    lemma_four_steps(bytes, 12);
    lemma_four_steps(bytes, 16);
    lemma_four_steps(bytes, 20);
    lemma_four_steps(bytes, 24);
    lemma_four_steps(bytes, 28);
    lemma_step(bytes, 32);
    lemma_step(bytes, 33);
    assert(bytes.take(0) =~= Seq::empty());
    assert(bytes.take(34) =~= bytes);
    assert(
        fnv_step(fnv_step(four_steps(four_steps(four_steps(four_steps(four_steps(four_steps(
        four_steps(four_steps(0xCBF2_9CE4_8422_2325u64, 105u8, 109u8, 112u8, 111u8), 114u8, 116u8,
        95u8, 115u8), 116u8, 97u8, 110u8, 100u8), 105u8, 110u8, 103u8, 95u8), 99u8, 104u8, 97u8,
        114u8), 103u8, 101u8, 95u8, 99u8), 101u8, 110u8, 116u8, 105u8), 112u8, 101u8, 110u8, 99u8),
        101u8), 255u8) == 0xACD1_F698_D781_0958u64
    ) by (bit_vector);
}

/// The key of `metric_collection_count`.
proof fn key_of_collect_count()
    ensures
        metric_key("metric_collection_count"@) == 0x8C5B_E0A7_E23C_1FCB,
{
    reveal_strlit("metric_collection_count");
    let name = "metric_collection_count"@;
    let bytes = encode_utf8(name).push(0xFF);
    is_ascii_chars_encode_utf8(name);
    lemma_four_steps(bytes, 0);
    lemma_four_steps(bytes, 4);
    lemma_four_steps(bytes, 8);
    lemma_four_steps(bytes, 12);
    lemma_four_steps(bytes, 16);
    lemma_four_steps(bytes, 20);
    assert(bytes.take(0) =~= Seq::empty());
    assert(bytes.take(24) =~= bytes);
    assert(
        four_steps(four_steps(four_steps(four_steps(four_steps(four_steps(
        0xCBF2_9CE4_8422_2325u64, 109u8, 101u8, 116u8, 114u8), 105u8, 99u8, 95u8, 99u8), 111u8,
        108u8, 108u8, 101u8), 99u8, 116u8, 105u8, 111u8), 110u8, 95u8, 99u8, 111u8), 117u8, 110u8,
        116u8, 255u8) == 0x8C5B_E0A7_E23C_1FCBu64
    ) by (bit_vector);
}

/// No two metrics have the same key.
pub proof fn metrics_are_told_apart()
    ensures
        forall|i: int, j: int|
            0 <= i < j < metric_names().len() ==> metric_key(#[trigger] metric_names()[i])
                != metric_key(#[trigger] metric_names()[j]),
{
    key_of_current_power();
    key_of_total_energy();
    key_of_cumulative_energy_day();
    key_of_cumulative_energy_week();
    key_of_cumulative_energy_month();
    key_of_import_unit_price();
    key_of_import_price_standing_charge();
    key_of_collect_count();
}

} // verus!
