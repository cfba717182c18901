//! The identities of the registry's entries, worked out from their keys: no two of them are alike.

use vstd::prelude::*;
use vstd::utf8;

use crate::param;
use crate::registry;

verus! {

/// The identity of every entry of the registry, in the registry's order.
pub open spec fn identities() -> Seq<u32> {
    seq![
        0x51B9_7495u32,
        0x6987_AA23u32,
        0x31BC_BD15u32,
        0x2C78_1252u32,
        0x7180_BFE9u32,
        0xE48F_CA0Au32,
        0xF659_346Au32,
        0x6582_E770u32,
        0x7961_CA80u32,
        0xD45A_A9A3u32,
        0xF120_3A85u32,
        0xDCD3_BD39u32,
        0x40F3_5D4Fu32,
        0x3EFC_EBD3u32,
        0x5F34_16C5u32,
        0xBD75_C9A1u32,
        0xE28C_BDECu32,
        0x8781_0932u32,
        0x2FCD_8421u32,
        0x3C5E_FBC1u32,
        0xBD46_1332u32,
        0x962F_890Fu32,
        0x3814_4E26u32,
        0x9593_D7FDu32,
        0x019B_874Bu32,
        0xFE80_462Fu32,
        0x5FCB_46F7u32,
        0xA9A4_1C8Bu32,
        0xCFC9_171Fu32,
        0x9B01_AB20u32,
        0x9831_A58Cu32,
        0x71C7_124Bu32,
    ]
}

/// One byte of the hash.
spec fn hashed(hash: u32, byte: u32) -> u32 {
    param::hashed(hash, byte)
}

/// A key of single bytes in two pieces.
proof fn lemma_id_in_pieces(key: Seq<char>, start: Seq<char>, rest: Seq<char>)
    requires
        key == start + rest,
        utf8::is_ascii_chars(key),
    ensures
        param::id_of(key).value == param::hashed_on(
            param::hashed_on(param::FNV_OFFSET_BASIS, start),
            rest,
        ),
{
    param::lemma_id_is_the_hash(key);
    param::lemma_hash_goes_on(param::FNV_OFFSET_BASIS, start, rest);
}

proof fn lemma_hash_of_trim()
    ensures
        param::hashed_on(param::FNV_OFFSET_BASIS, "trim."@) == 0xFF5A_4CA5u32,
{
    reveal_strlit("trim.");
    reveal_with_fuel(param::hashed_on, 6);
    assert(
        hashed(hashed(hashed(hashed(hashed(0x811C_9DC5u32, 116u32), 114u32), 105u32), 109u32),
        46u32)
        == 0xFF5A_4CA5u32
    ) by (bit_vector);
}

proof fn lemma_ids_of_trim()
    ensures
        param::id_of("trim.gain_db"@).value == 0x51B9_7495u32,
        param::id_of("trim.dc_blocker_enabled"@).value == 0x6987_AA23u32,
{
    reveal_strlit("trim.");
    lemma_hash_of_trim();
    assert({
        &&& hashed(hashed(hashed(hashed(hashed(hashed(hashed(0xFF5A_4CA5u32, 103u32), 97u32),
            105u32), 110u32), 95u32), 100u32), 98u32)
            == 0x51B9_7495u32
        &&& hashed(hashed(hashed(hashed(hashed(hashed(hashed(hashed(hashed(hashed(hashed(hashed(
            hashed(hashed(hashed(hashed(hashed(hashed(0xFF5A_4CA5u32, 100u32), 99u32), 95u32),
            98u32), 108u32), 111u32), 99u32), 107u32), 101u32), 114u32), 95u32), 101u32), 110u32),
            97u32), 98u32), 108u32), 101u32), 100u32)
            == 0x6987_AA23u32
    }) by (bit_vector);
    assert(param::id_of("trim.gain_db"@).value == 0x51B9_7495u32) by {
        reveal_strlit("gain_db");
        reveal_strlit("trim.gain_db");
        assert("trim.gain_db"@ =~= "trim."@ + "gain_db"@);
        lemma_id_in_pieces("trim.gain_db"@, "trim."@, "gain_db"@);
        reveal_with_fuel(param::hashed_on, 8);
    }
    assert(param::id_of("trim.dc_blocker_enabled"@).value == 0x6987_AA23u32) by {
        reveal_strlit("dc_blocker_enabled");
        reveal_strlit("trim.dc_blocker_enabled");
        assert("trim.dc_blocker_enabled"@ =~= "trim."@ + "dc_blocker_enabled"@);
        lemma_id_in_pieces("trim.dc_blocker_enabled"@, "trim."@, "dc_blocker_enabled"@);
        reveal_with_fuel(param::hashed_on, 19);
    }
}

proof fn lemma_hash_of_gate()
    ensures
        param::hashed_on(param::FNV_OFFSET_BASIS, "gate."@) == 0x7692_4F74u32,
{
    reveal_strlit("gate.");
    reveal_with_fuel(param::hashed_on, 6);
    assert(
        hashed(hashed(hashed(hashed(hashed(0x811C_9DC5u32, 103u32), 97u32), 116u32), 101u32),
        46u32)
        == 0x7692_4F74u32
    ) by (bit_vector);
}

proof fn lemma_id_of_gate_enabled_and_what_follows()
    ensures
        param::id_of("gate.enabled"@).value == 0x31BC_BD15u32,
        param::id_of("gate.threshold_db"@).value == 0x2C78_1252u32,
        param::id_of("gate.attack_ms"@).value == 0x7180_BFE9u32,
        param::id_of("gate.hold_ms"@).value == 0xE48F_CA0Au32,
{
    reveal_strlit("gate.");
    lemma_hash_of_gate();
    assert({
        &&& hashed(hashed(hashed(hashed(hashed(hashed(hashed(0x7692_4F74u32, 101u32), 110u32),
            97u32), 98u32), 108u32), 101u32), 100u32)
            == 0x31BC_BD15u32
        &&& hashed(hashed(hashed(hashed(hashed(hashed(hashed(hashed(hashed(hashed(hashed(hashed(
            0x7692_4F74u32, 116u32), 104u32), 114u32), 101u32), 115u32), 104u32), 111u32), 108u32)
            , 100u32), 95u32), 100u32), 98u32)
            == 0x2C78_1252u32
        &&& hashed(hashed(hashed(hashed(hashed(hashed(hashed(hashed(hashed(0x7692_4F74u32, 97u32),
            116u32), 116u32), 97u32), 99u32), 107u32), 95u32), 109u32), 115u32)
            == 0x7180_BFE9u32
        &&& hashed(hashed(hashed(hashed(hashed(hashed(hashed(0x7692_4F74u32, 104u32), 111u32),
            108u32), 100u32), 95u32), 109u32), 115u32)
            == 0xE48F_CA0Au32
    }) by (bit_vector);
    assert(param::id_of("gate.enabled"@).value == 0x31BC_BD15u32) by {
        reveal_strlit("enabled");
        reveal_strlit("gate.enabled");
        assert("gate.enabled"@ =~= "gate."@ + "enabled"@);
        lemma_id_in_pieces("gate.enabled"@, "gate."@, "enabled"@);
        reveal_with_fuel(param::hashed_on, 8);
    }
    assert(param::id_of("gate.threshold_db"@).value == 0x2C78_1252u32) by {
        reveal_strlit("threshold_db");
        reveal_strlit("gate.threshold_db");
        assert("gate.threshold_db"@ =~= "gate."@ + "threshold_db"@);
        lemma_id_in_pieces("gate.threshold_db"@, "gate."@, "threshold_db"@);
        reveal_with_fuel(param::hashed_on, 13);
    }
    assert(param::id_of("gate.attack_ms"@).value == 0x7180_BFE9u32) by {
        reveal_strlit("attack_ms");
        reveal_strlit("gate.attack_ms");
        assert("gate.attack_ms"@ =~= "gate."@ + "attack_ms"@);
        lemma_id_in_pieces("gate.attack_ms"@, "gate."@, "attack_ms"@);
        reveal_with_fuel(param::hashed_on, 10);
    }
    assert(param::id_of("gate.hold_ms"@).value == 0xE48F_CA0Au32) by {
        reveal_strlit("hold_ms");
        reveal_strlit("gate.hold_ms");
        assert("gate.hold_ms"@ =~= "gate."@ + "hold_ms"@);
        lemma_id_in_pieces("gate.hold_ms"@, "gate."@, "hold_ms"@);
        reveal_with_fuel(param::hashed_on, 8);
    }
}

proof fn lemma_id_of_gate_release_ms_and_what_follows()
    ensures
        param::id_of("gate.release_ms"@).value == 0xF659_346Au32,
{
    reveal_strlit("gate.");
    lemma_hash_of_gate();
    assert({
        &&& hashed(hashed(hashed(hashed(hashed(hashed(hashed(hashed(hashed(hashed(0x7692_4F74u32,
            114u32), 101u32), 108u32), 101u32), 97u32), 115u32), 101u32), 95u32), 109u32), 115u32)
            == 0xF659_346Au32
    }) by (bit_vector);
    assert(param::id_of("gate.release_ms"@).value == 0xF659_346Au32) by {
        reveal_strlit("release_ms");
        reveal_strlit("gate.release_ms");
        assert("gate.release_ms"@ =~= "gate."@ + "release_ms"@);
        lemma_id_in_pieces("gate.release_ms"@, "gate."@, "release_ms"@);
        reveal_with_fuel(param::hashed_on, 11);
    }
}

proof fn lemma_hash_of_nam()
    ensures
        param::hashed_on(param::FNV_OFFSET_BASIS, "nam."@) == 0x5439_642Bu32,
{
    reveal_strlit("nam.");
    reveal_with_fuel(param::hashed_on, 5);
    assert(
        hashed(hashed(hashed(hashed(0x811C_9DC5u32, 110u32), 97u32), 109u32), 46u32)
        == 0x5439_642Bu32
    ) by (bit_vector);
}

proof fn lemma_ids_of_nam()
    ensures
        param::id_of("nam.enabled"@).value == 0x6582_E770u32,
        param::id_of("nam.normalize_enabled"@).value == 0x7961_CA80u32,
        param::id_of("nam.normalize_offset_db"@).value == 0xD45A_A9A3u32,
{
    reveal_strlit("nam.");
    lemma_hash_of_nam();
    assert({
        &&& hashed(hashed(hashed(hashed(hashed(hashed(hashed(0x5439_642Bu32, 101u32), 110u32),
            97u32), 98u32), 108u32), 101u32), 100u32)
            == 0x6582_E770u32
        &&& hashed(hashed(hashed(hashed(hashed(hashed(hashed(hashed(hashed(hashed(hashed(hashed(
            hashed(hashed(hashed(hashed(hashed(0x5439_642Bu32, 110u32), 111u32), 114u32), 109u32),
            97u32), 108u32), 105u32), 122u32), 101u32), 95u32), 101u32), 110u32), 97u32), 98u32),
            108u32), 101u32), 100u32)
            == 0x7961_CA80u32
        &&& hashed(hashed(hashed(hashed(hashed(hashed(hashed(hashed(hashed(hashed(hashed(hashed(
            hashed(hashed(hashed(hashed(hashed(hashed(hashed(0x5439_642Bu32, 110u32), 111u32),
            114u32), 109u32), 97u32), 108u32), 105u32), 122u32), 101u32), 95u32), 111u32), 102u32)
            , 102u32), 115u32), 101u32), 116u32), 95u32), 100u32), 98u32)
            == 0xD45A_A9A3u32
    }) by (bit_vector);
    assert(param::id_of("nam.enabled"@).value == 0x6582_E770u32) by {
        reveal_strlit("enabled");
        reveal_strlit("nam.enabled");
        assert("nam.enabled"@ =~= "nam."@ + "enabled"@);
        lemma_id_in_pieces("nam.enabled"@, "nam."@, "enabled"@);
        reveal_with_fuel(param::hashed_on, 8);
    }
    assert(param::id_of("nam.normalize_enabled"@).value == 0x7961_CA80u32) by {
        reveal_strlit("normalize_enabled");
        reveal_strlit("nam.normalize_enabled");
        assert("nam.normalize_enabled"@ =~= "nam."@ + "normalize_enabled"@);
        lemma_id_in_pieces("nam.normalize_enabled"@, "nam."@, "normalize_enabled"@);
        reveal_with_fuel(param::hashed_on, 18);
    }
    assert(param::id_of("nam.normalize_offset_db"@).value == 0xD45A_A9A3u32) by {
        reveal_strlit("normalize_offset_db");
        reveal_strlit("nam.normalize_offset_db");
        assert("nam.normalize_offset_db"@ =~= "nam."@ + "normalize_offset_db"@);
        lemma_id_in_pieces("nam.normalize_offset_db"@, "nam."@, "normalize_offset_db"@);
        reveal_with_fuel(param::hashed_on, 20);
    }
}

proof fn lemma_hash_of_ir()
    ensures
        param::hashed_on(param::FNV_OFFSET_BASIS, "ir."@) == 0x3C07_05C4u32,
{
    reveal_strlit("ir.");
    reveal_with_fuel(param::hashed_on, 4);
    assert(
        hashed(hashed(hashed(0x811C_9DC5u32, 105u32), 114u32), 46u32)
        == 0x3C07_05C4u32
    ) by (bit_vector);
}

proof fn lemma_id_of_ir_enabled_and_what_follows()
    ensures
        param::id_of("ir.enabled"@).value == 0xF120_3A85u32,
        param::id_of("ir.level_db"@).value == 0xDCD3_BD39u32,
        param::id_of("ir.low_cut_enabled"@).value == 0x40F3_5D4Fu32,
        param::id_of("ir.low_cut_freq_hz"@).value == 0x3EFC_EBD3u32,
{
    reveal_strlit("ir.");
    lemma_hash_of_ir();
    assert({
        &&& hashed(hashed(hashed(hashed(hashed(hashed(hashed(0x3C07_05C4u32, 101u32), 110u32),
            97u32), 98u32), 108u32), 101u32), 100u32)
            == 0xF120_3A85u32
        &&& hashed(hashed(hashed(hashed(hashed(hashed(hashed(hashed(0x3C07_05C4u32, 108u32),
            101u32), 118u32), 101u32), 108u32), 95u32), 100u32), 98u32)
            == 0xDCD3_BD39u32
        &&& hashed(hashed(hashed(hashed(hashed(hashed(hashed(hashed(hashed(hashed(hashed(hashed(
            hashed(hashed(hashed(0x3C07_05C4u32, 108u32), 111u32), 119u32), 95u32), 99u32),
            117u32), 116u32), 95u32), 101u32), 110u32), 97u32), 98u32), 108u32), 101u32), 100u32)
            == 0x40F3_5D4Fu32
        &&& hashed(hashed(hashed(hashed(hashed(hashed(hashed(hashed(hashed(hashed(hashed(hashed(
            hashed(hashed(hashed(0x3C07_05C4u32, 108u32), 111u32), 119u32), 95u32), 99u32),
            117u32), 116u32), 95u32), 102u32), 114u32), 101u32), 113u32), 95u32), 104u32), 122u32)
            == 0x3EFC_EBD3u32
    }) by (bit_vector);
    assert(param::id_of("ir.enabled"@).value == 0xF120_3A85u32) by {
        reveal_strlit("enabled");
        reveal_strlit("ir.enabled");
        assert("ir.enabled"@ =~= "ir."@ + "enabled"@);
        lemma_id_in_pieces("ir.enabled"@, "ir."@, "enabled"@);
        reveal_with_fuel(param::hashed_on, 8);
    }
    assert(param::id_of("ir.level_db"@).value == 0xDCD3_BD39u32) by {
        reveal_strlit("level_db");
        reveal_strlit("ir.level_db");
        assert("ir.level_db"@ =~= "ir."@ + "level_db"@);
        lemma_id_in_pieces("ir.level_db"@, "ir."@, "level_db"@);
        reveal_with_fuel(param::hashed_on, 9);
    }
    assert(param::id_of("ir.low_cut_enabled"@).value == 0x40F3_5D4Fu32) by {
        reveal_strlit("low_cut_enabled");
        reveal_strlit("ir.low_cut_enabled");
        assert("ir.low_cut_enabled"@ =~= "ir."@ + "low_cut_enabled"@);
        lemma_id_in_pieces("ir.low_cut_enabled"@, "ir."@, "low_cut_enabled"@);
        reveal_with_fuel(param::hashed_on, 16);
    }
    assert(param::id_of("ir.low_cut_freq_hz"@).value == 0x3EFC_EBD3u32) by {
        reveal_strlit("low_cut_freq_hz");
        reveal_strlit("ir.low_cut_freq_hz");
        assert("ir.low_cut_freq_hz"@ =~= "ir."@ + "low_cut_freq_hz"@);
        lemma_id_in_pieces("ir.low_cut_freq_hz"@, "ir."@, "low_cut_freq_hz"@);
        reveal_with_fuel(param::hashed_on, 16);
    }
}

proof fn lemma_id_of_ir_high_cut_enabled_and_what_follows()
    ensures
        param::id_of("ir.high_cut_enabled"@).value == 0x5F34_16C5u32,
        param::id_of("ir.high_cut_freq_hz"@).value == 0xBD75_C9A1u32,
{
    reveal_strlit("ir.");
    lemma_hash_of_ir();
    assert({
        &&& hashed(hashed(hashed(hashed(hashed(hashed(hashed(hashed(hashed(hashed(hashed(hashed(
            hashed(hashed(hashed(hashed(0x3C07_05C4u32, 104u32), 105u32), 103u32), 104u32), 95u32)
            , 99u32), 117u32), 116u32), 95u32), 101u32), 110u32), 97u32), 98u32), 108u32), 101u32)
            , 100u32)
            == 0x5F34_16C5u32
        &&& hashed(hashed(hashed(hashed(hashed(hashed(hashed(hashed(hashed(hashed(hashed(hashed(
            hashed(hashed(hashed(hashed(0x3C07_05C4u32, 104u32), 105u32), 103u32), 104u32), 95u32)
            , 99u32), 117u32), 116u32), 95u32), 102u32), 114u32), 101u32), 113u32), 95u32),
            104u32), 122u32)
            == 0xBD75_C9A1u32
    }) by (bit_vector);
    assert(param::id_of("ir.high_cut_enabled"@).value == 0x5F34_16C5u32) by {
        reveal_strlit("high_cut_enabled");
        reveal_strlit("ir.high_cut_enabled");
        assert("ir.high_cut_enabled"@ =~= "ir."@ + "high_cut_enabled"@);
        lemma_id_in_pieces("ir.high_cut_enabled"@, "ir."@, "high_cut_enabled"@);
        reveal_with_fuel(param::hashed_on, 17);
    }
    assert(param::id_of("ir.high_cut_freq_hz"@).value == 0xBD75_C9A1u32) by {
        reveal_strlit("high_cut_freq_hz");
        reveal_strlit("ir.high_cut_freq_hz");
        assert("ir.high_cut_freq_hz"@ =~= "ir."@ + "high_cut_freq_hz"@);
        lemma_id_in_pieces("ir.high_cut_freq_hz"@, "ir."@, "high_cut_freq_hz"@);
        reveal_with_fuel(param::hashed_on, 17);
    }
}

proof fn lemma_hash_of_eq()
    ensures
        param::hashed_on(param::FNV_OFFSET_BASIS, "eq."@) == 0xA295_8997u32,
{
    reveal_strlit("eq.");
    reveal_with_fuel(param::hashed_on, 4);
    assert(
        hashed(hashed(hashed(0x811C_9DC5u32, 101u32), 113u32), 46u32)
        == 0xA295_8997u32
    ) by (bit_vector);
}

proof fn lemma_id_of_eq_enabled_and_what_follows()
    ensures
        param::id_of("eq.enabled"@).value == 0xE28C_BDECu32,
        param::id_of("eq.low_shelf_freq_hz"@).value == 0x8781_0932u32,
        param::id_of("eq.low_shelf_gain_db"@).value == 0x2FCD_8421u32,
{
    reveal_strlit("eq.");
    lemma_hash_of_eq();
    assert({
        &&& hashed(hashed(hashed(hashed(hashed(hashed(hashed(0xA295_8997u32, 101u32), 110u32),
            97u32), 98u32), 108u32), 101u32), 100u32)
            == 0xE28C_BDECu32
        &&& hashed(hashed(hashed(hashed(hashed(hashed(hashed(hashed(hashed(hashed(hashed(hashed(
            hashed(hashed(hashed(hashed(hashed(0xA295_8997u32, 108u32), 111u32), 119u32), 95u32),
            115u32), 104u32), 101u32), 108u32), 102u32), 95u32), 102u32), 114u32), 101u32),
            113u32), 95u32), 104u32), 122u32)
            == 0x8781_0932u32
        &&& hashed(hashed(hashed(hashed(hashed(hashed(hashed(hashed(hashed(hashed(hashed(hashed(
            hashed(hashed(hashed(hashed(hashed(0xA295_8997u32, 108u32), 111u32), 119u32), 95u32),
            115u32), 104u32), 101u32), 108u32), 102u32), 95u32), 103u32), 97u32), 105u32), 110u32)
            , 95u32), 100u32), 98u32)
            == 0x2FCD_8421u32
    }) by (bit_vector);
    assert(param::id_of("eq.enabled"@).value == 0xE28C_BDECu32) by {
        reveal_strlit("enabled");
        reveal_strlit("eq.enabled");
        assert("eq.enabled"@ =~= "eq."@ + "enabled"@);
        lemma_id_in_pieces("eq.enabled"@, "eq."@, "enabled"@);
        reveal_with_fuel(param::hashed_on, 8);
    }
    assert(param::id_of("eq.low_shelf_freq_hz"@).value == 0x8781_0932u32) by {
        reveal_strlit("low_shelf_freq_hz");
        reveal_strlit("eq.low_shelf_freq_hz");
        assert("eq.low_shelf_freq_hz"@ =~= "eq."@ + "low_shelf_freq_hz"@);
        lemma_id_in_pieces("eq.low_shelf_freq_hz"@, "eq."@, "low_shelf_freq_hz"@);
        reveal_with_fuel(param::hashed_on, 18);
    }
    assert(param::id_of("eq.low_shelf_gain_db"@).value == 0x2FCD_8421u32) by {
        reveal_strlit("low_shelf_gain_db");
        reveal_strlit("eq.low_shelf_gain_db");
        assert("eq.low_shelf_gain_db"@ =~= "eq."@ + "low_shelf_gain_db"@);
        lemma_id_in_pieces("eq.low_shelf_gain_db"@, "eq."@, "low_shelf_gain_db"@);
        reveal_with_fuel(param::hashed_on, 18);
    }
}

proof fn lemma_id_of_eq_mid_freq_hz_and_what_follows()
    ensures
        param::id_of("eq.mid_freq_hz"@).value == 0x3C5E_FBC1u32,
        param::id_of("eq.mid_gain_db"@).value == 0xBD46_1332u32,
        param::id_of("eq.mid_q"@).value == 0x962F_890Fu32,
{
    reveal_strlit("eq.");
    lemma_hash_of_eq();
    assert({
        &&& hashed(hashed(hashed(hashed(hashed(hashed(hashed(hashed(hashed(hashed(hashed(
            0xA295_8997u32, 109u32), 105u32), 100u32), 95u32), 102u32), 114u32), 101u32), 113u32),
            95u32), 104u32), 122u32)
            == 0x3C5E_FBC1u32
        &&& hashed(hashed(hashed(hashed(hashed(hashed(hashed(hashed(hashed(hashed(hashed(
            0xA295_8997u32, 109u32), 105u32), 100u32), 95u32), 103u32), 97u32), 105u32), 110u32),
            95u32), 100u32), 98u32)
            == 0xBD46_1332u32
        &&& hashed(hashed(hashed(hashed(hashed(0xA295_8997u32, 109u32), 105u32), 100u32), 95u32),
            113u32)
            == 0x962F_890Fu32
    }) by (bit_vector);
    assert(param::id_of("eq.mid_freq_hz"@).value == 0x3C5E_FBC1u32) by {
        reveal_strlit("mid_freq_hz");
        reveal_strlit("eq.mid_freq_hz");
        assert("eq.mid_freq_hz"@ =~= "eq."@ + "mid_freq_hz"@);
        lemma_id_in_pieces("eq.mid_freq_hz"@, "eq."@, "mid_freq_hz"@);
        reveal_with_fuel(param::hashed_on, 12);
    }
    assert(param::id_of("eq.mid_gain_db"@).value == 0xBD46_1332u32) by {
        reveal_strlit("mid_gain_db");
        reveal_strlit("eq.mid_gain_db");
        assert("eq.mid_gain_db"@ =~= "eq."@ + "mid_gain_db"@);
        lemma_id_in_pieces("eq.mid_gain_db"@, "eq."@, "mid_gain_db"@);
        reveal_with_fuel(param::hashed_on, 12);
    }
    assert(param::id_of("eq.mid_q"@).value == 0x962F_890Fu32) by {
        reveal_strlit("mid_q");
        reveal_strlit("eq.mid_q");
        assert("eq.mid_q"@ =~= "eq."@ + "mid_q"@);
        lemma_id_in_pieces("eq.mid_q"@, "eq."@, "mid_q"@);
        reveal_with_fuel(param::hashed_on, 6);
    }
}

proof fn lemma_id_of_eq_high_shelf_freq_hz_and_what_follows()
    ensures
        param::id_of("eq.high_shelf_freq_hz"@).value == 0x3814_4E26u32,
        param::id_of("eq.high_shelf_gain_db"@).value == 0x9593_D7FDu32,
        param::id_of("eq.high_pass_enabled"@).value == 0x019B_874Bu32,
{
    reveal_strlit("eq.");
    lemma_hash_of_eq();
    assert({
        &&& hashed(hashed(hashed(hashed(hashed(hashed(hashed(hashed(hashed(hashed(hashed(hashed(
            hashed(hashed(hashed(hashed(hashed(hashed(0xA295_8997u32, 104u32), 105u32), 103u32),
            104u32), 95u32), 115u32), 104u32), 101u32), 108u32), 102u32), 95u32), 102u32), 114u32)
            , 101u32), 113u32), 95u32), 104u32), 122u32)
            == 0x3814_4E26u32
        &&& hashed(hashed(hashed(hashed(hashed(hashed(hashed(hashed(hashed(hashed(hashed(hashed(
            hashed(hashed(hashed(hashed(hashed(hashed(0xA295_8997u32, 104u32), 105u32), 103u32),
            104u32), 95u32), 115u32), 104u32), 101u32), 108u32), 102u32), 95u32), 103u32), 97u32),
            105u32), 110u32), 95u32), 100u32), 98u32)
            == 0x9593_D7FDu32
        &&& hashed(hashed(hashed(hashed(hashed(hashed(hashed(hashed(hashed(hashed(hashed(hashed(
            hashed(hashed(hashed(hashed(hashed(0xA295_8997u32, 104u32), 105u32), 103u32), 104u32),
            95u32), 112u32), 97u32), 115u32), 115u32), 95u32), 101u32), 110u32), 97u32), 98u32),
            108u32), 101u32), 100u32)
            == 0x019B_874Bu32
    }) by (bit_vector);
    assert(param::id_of("eq.high_shelf_freq_hz"@).value == 0x3814_4E26u32) by {
        reveal_strlit("high_shelf_freq_hz");
        reveal_strlit("eq.high_shelf_freq_hz");
        assert("eq.high_shelf_freq_hz"@ =~= "eq."@ + "high_shelf_freq_hz"@);
        lemma_id_in_pieces("eq.high_shelf_freq_hz"@, "eq."@, "high_shelf_freq_hz"@);
        reveal_with_fuel(param::hashed_on, 19);
    }
    assert(param::id_of("eq.high_shelf_gain_db"@).value == 0x9593_D7FDu32) by {
        reveal_strlit("high_shelf_gain_db");
        reveal_strlit("eq.high_shelf_gain_db");
        assert("eq.high_shelf_gain_db"@ =~= "eq."@ + "high_shelf_gain_db"@);
        lemma_id_in_pieces("eq.high_shelf_gain_db"@, "eq."@, "high_shelf_gain_db"@);
        reveal_with_fuel(param::hashed_on, 19);
    }
    assert(param::id_of("eq.high_pass_enabled"@).value == 0x019B_874Bu32) by {
        reveal_strlit("high_pass_enabled");
        reveal_strlit("eq.high_pass_enabled");
        assert("eq.high_pass_enabled"@ =~= "eq."@ + "high_pass_enabled"@);
        lemma_id_in_pieces("eq.high_pass_enabled"@, "eq."@, "high_pass_enabled"@);
        reveal_with_fuel(param::hashed_on, 18);
    }
}

proof fn lemma_id_of_eq_high_pass_freq_hz_and_what_follows()
    ensures
        param::id_of("eq.high_pass_freq_hz"@).value == 0xFE80_462Fu32,
        param::id_of("eq.low_pass_enabled"@).value == 0x5FCB_46F7u32,
        param::id_of("eq.low_pass_freq_hz"@).value == 0xA9A4_1C8Bu32,
{
    reveal_strlit("eq.");
    lemma_hash_of_eq();
    assert({
        &&& hashed(hashed(hashed(hashed(hashed(hashed(hashed(hashed(hashed(hashed(hashed(hashed(
            hashed(hashed(hashed(hashed(hashed(0xA295_8997u32, 104u32), 105u32), 103u32), 104u32),
            95u32), 112u32), 97u32), 115u32), 115u32), 95u32), 102u32), 114u32), 101u32), 113u32),
            95u32), 104u32), 122u32)
            == 0xFE80_462Fu32
        &&& hashed(hashed(hashed(hashed(hashed(hashed(hashed(hashed(hashed(hashed(hashed(hashed(
            hashed(hashed(hashed(hashed(0xA295_8997u32, 108u32), 111u32), 119u32), 95u32), 112u32)
            , 97u32), 115u32), 115u32), 95u32), 101u32), 110u32), 97u32), 98u32), 108u32), 101u32)
            , 100u32)
            == 0x5FCB_46F7u32
        &&& hashed(hashed(hashed(hashed(hashed(hashed(hashed(hashed(hashed(hashed(hashed(hashed(
            hashed(hashed(hashed(hashed(0xA295_8997u32, 108u32), 111u32), 119u32), 95u32), 112u32)
            , 97u32), 115u32), 115u32), 95u32), 102u32), 114u32), 101u32), 113u32), 95u32),
            104u32), 122u32)
            == 0xA9A4_1C8Bu32
    }) by (bit_vector);
    assert(param::id_of("eq.high_pass_freq_hz"@).value == 0xFE80_462Fu32) by {
        reveal_strlit("high_pass_freq_hz");
        reveal_strlit("eq.high_pass_freq_hz");
        assert("eq.high_pass_freq_hz"@ =~= "eq."@ + "high_pass_freq_hz"@);
        lemma_id_in_pieces("eq.high_pass_freq_hz"@, "eq."@, "high_pass_freq_hz"@);
        reveal_with_fuel(param::hashed_on, 18);
    }
    assert(param::id_of("eq.low_pass_enabled"@).value == 0x5FCB_46F7u32) by {
        reveal_strlit("low_pass_enabled");
        reveal_strlit("eq.low_pass_enabled");
        assert("eq.low_pass_enabled"@ =~= "eq."@ + "low_pass_enabled"@);
        lemma_id_in_pieces("eq.low_pass_enabled"@, "eq."@, "low_pass_enabled"@);
        reveal_with_fuel(param::hashed_on, 17);
    }
    assert(param::id_of("eq.low_pass_freq_hz"@).value == 0xA9A4_1C8Bu32) by {
        reveal_strlit("low_pass_freq_hz");
        reveal_strlit("eq.low_pass_freq_hz");
        assert("eq.low_pass_freq_hz"@ =~= "eq."@ + "low_pass_freq_hz"@);
        lemma_id_in_pieces("eq.low_pass_freq_hz"@, "eq."@, "low_pass_freq_hz"@);
        reveal_with_fuel(param::hashed_on, 17);
    }
}

proof fn lemma_hash_of_out()
    ensures
        param::hashed_on(param::FNV_OFFSET_BASIS, "out."@) == 0xCB43_B3E3u32,
{
    reveal_strlit("out.");
    reveal_with_fuel(param::hashed_on, 5);
    assert(
        hashed(hashed(hashed(hashed(0x811C_9DC5u32, 111u32), 117u32), 116u32), 46u32)
        == 0xCB43_B3E3u32
    ) by (bit_vector);
}

proof fn lemma_ids_of_out()
    ensures
        param::id_of("out.gain_db"@).value == 0xCFC9_171Fu32,
{
    reveal_strlit("out.");
    lemma_hash_of_out();
    assert({
        &&& hashed(hashed(hashed(hashed(hashed(hashed(hashed(0xCB43_B3E3u32, 103u32), 97u32),
            105u32), 110u32), 95u32), 100u32), 98u32)
            == 0xCFC9_171Fu32
    }) by (bit_vector);
    assert(param::id_of("out.gain_db"@).value == 0xCFC9_171Fu32) by {
        reveal_strlit("gain_db");
        reveal_strlit("out.gain_db");
        assert("out.gain_db"@ =~= "out."@ + "gain_db"@);
        lemma_id_in_pieces("out.gain_db"@, "out."@, "gain_db"@);
        reveal_with_fuel(param::hashed_on, 8);
    }
}

proof fn lemma_hash_of_global()
    ensures
        param::hashed_on(param::FNV_OFFSET_BASIS, "global."@) == 0xB877_3B80u32,
{
    reveal_strlit("global.");
    reveal_with_fuel(param::hashed_on, 8);
    assert(
        hashed(hashed(hashed(hashed(hashed(hashed(hashed(0x811C_9DC5u32, 103u32), 108u32), 111u32)
        , 98u32), 97u32), 108u32), 46u32)
        == 0xB877_3B80u32
    ) by (bit_vector);
}

proof fn lemma_ids_of_global()
    ensures
        param::id_of("global.bypass"@).value == 0x9B01_AB20u32,
        param::id_of("global.output_ceiling_db"@).value == 0x9831_A58Cu32,
        param::id_of("global.independent_channels"@).value == 0x71C7_124Bu32,
{
    reveal_strlit("global.");
    lemma_hash_of_global();
    assert({
        &&& hashed(hashed(hashed(hashed(hashed(hashed(0xB877_3B80u32, 98u32), 121u32), 112u32),
            97u32), 115u32), 115u32)
            == 0x9B01_AB20u32
        &&& hashed(hashed(hashed(hashed(hashed(hashed(hashed(hashed(hashed(hashed(hashed(hashed(
            hashed(hashed(hashed(hashed(hashed(0xB877_3B80u32, 111u32), 117u32), 116u32), 112u32),
            117u32), 116u32), 95u32), 99u32), 101u32), 105u32), 108u32), 105u32), 110u32), 103u32)
            , 95u32), 100u32), 98u32)
            == 0x9831_A58Cu32
        &&& hashed(hashed(hashed(hashed(hashed(hashed(hashed(hashed(hashed(hashed(hashed(hashed(
            hashed(hashed(hashed(hashed(hashed(hashed(hashed(hashed(0xB877_3B80u32, 105u32),
            110u32), 100u32), 101u32), 112u32), 101u32), 110u32), 100u32), 101u32), 110u32),
            116u32), 95u32), 99u32), 104u32), 97u32), 110u32), 110u32), 101u32), 108u32), 115u32)
            == 0x71C7_124Bu32
    }) by (bit_vector);
    assert(param::id_of("global.bypass"@).value == 0x9B01_AB20u32) by {
        reveal_strlit("bypass");
        reveal_strlit("global.bypass");
        assert("global.bypass"@ =~= "global."@ + "bypass"@);
        lemma_id_in_pieces("global.bypass"@, "global."@, "bypass"@);
        reveal_with_fuel(param::hashed_on, 7);
    }
    assert(param::id_of("global.output_ceiling_db"@).value == 0x9831_A58Cu32) by {
        reveal_strlit("output_ceiling_db");
        reveal_strlit("global.output_ceiling_db");
        assert("global.output_ceiling_db"@ =~= "global."@ + "output_ceiling_db"@);
        lemma_id_in_pieces("global.output_ceiling_db"@, "global."@, "output_ceiling_db"@);
        reveal_with_fuel(param::hashed_on, 18);
    }
    assert(param::id_of("global.independent_channels"@).value == 0x71C7_124Bu32) by {
        reveal_strlit("independent_channels");
        reveal_strlit("global.independent_channels");
        assert("global.independent_channels"@ =~= "global."@ + "independent_channels"@);
        lemma_id_in_pieces("global.independent_channels"@, "global."@, "independent_channels"@);
        reveal_with_fuel(param::hashed_on, 21);
    }
}

/// Every entry has the identity that is listed for it.
pub proof fn lemma_identities_are_listed(i: int)
    requires
        0 <= i < registry::registry_entries().len(),
    ensures
        identities().len() == registry::registry_entries().len(),
        registry::registry_entries()[i].id.value == identities()[i],
{
    registry::lemma_every_id_derives_from_its_key(i);
    lemma_ids_of_trim();
    lemma_id_of_gate_enabled_and_what_follows();
    lemma_id_of_gate_release_ms_and_what_follows();
    lemma_ids_of_nam();
    lemma_id_of_ir_enabled_and_what_follows();
    lemma_id_of_ir_high_cut_enabled_and_what_follows();
    lemma_id_of_eq_enabled_and_what_follows();
    lemma_id_of_eq_mid_freq_hz_and_what_follows();
    lemma_id_of_eq_high_shelf_freq_hz_and_what_follows();
    lemma_id_of_eq_high_pass_freq_hz_and_what_follows();
    lemma_ids_of_out();
    lemma_ids_of_global();
    reveal(registry::registry_entries);
}

/// No two entries of the registry share an identity or a key.
pub proof fn lemma_no_two_entries_are_alike(i: int, j: int)
    requires
        0 <= i < registry::registry_entries().len(),
        0 <= j < registry::registry_entries().len(),
        i != j,
    ensures
        registry::registry_entries()[i].id != registry::registry_entries()[j].id,
        registry::registry_entries()[i].key@ != registry::registry_entries()[j].key@,
{
    lemma_identities_are_listed(i);
    lemma_identities_are_listed(j);
    registry::lemma_every_id_derives_from_its_key(i);
    registry::lemma_every_id_derives_from_its_key(j);
}

/// A key that an entry has is that entry's alone, and is found there.
pub proof fn lemma_a_key_has_one_place(key: Seq<char>, i: int)
    requires
        registry::keyed(key, i),
    ensures
        registry::known(key),
        registry::place_of(key) == i,
        forall|j: int| #[trigger] registry::keyed(key, j) ==> j == i,
{
    assert forall|j: int| #[trigger] registry::keyed(key, j) implies j == i by {
        if j != i {
            lemma_no_two_entries_are_alike(i, j);
        }
    }
    registry::lemma_a_known_key_has_a_first_place(key, i);
}

/// Every entry has the identity its key stands for, and no two entries have the same.
pub proof fn lemma_identities_are_told_apart()
    ensures
        registry::registry_entries().len() == 32,
        forall|i: int|
            0 <= i < 32 ==> (#[trigger] registry::registry_entries()[i]).id == param::id_of(
                registry::registry_entries()[i].key@,
            ),
        forall|i: int, j: int|
            0 <= i < j < 32 ==> (#[trigger] registry::registry_entries()[i]).id != (
            #[trigger] registry::registry_entries()[j]).id,
{
    assert(registry::registry_entries().len() == 32) by {
        reveal(registry::registry_entries);
    }
    assert forall|i: int| 0 <= i < 32 implies (#[trigger] registry::registry_entries()[i]).id
        == param::id_of(registry::registry_entries()[i].key@) by {
        registry::lemma_every_id_derives_from_its_key(i);
    }
    assert forall|i: int, j: int| 0 <= i < j < 32 implies (
    #[trigger] registry::registry_entries()[i]).id != (
    #[trigger] registry::registry_entries()[j]).id by {
        lemma_no_two_entries_are_alike(i, j);
    }
}

} // verus!
