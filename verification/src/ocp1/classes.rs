//! Well-known AES70-1 class definitions.
//!
//! A member (method or property) is addressed by the inheritance depth at which it is defined
//! plus its index within that level, so the constants are grouped by class.
use vstd::prelude::*;

pub mod block;
pub mod device_manager;
pub mod level;
pub mod root;
pub mod single_value;
pub mod subscription;

verus! {

/// A class identity as a device reports it.
#[derive(Debug, Clone, PartialEq, Eq)]
pub struct ClassIdentification {
    /// The class's position in the tree, such as `[1, 1, 1, 5]` for `OcaGain`.
    pub fields: Vec<u16>,
    pub version: u32,
}

/// A [`ClassIdentification`], its fields as a sequence.
#[verifier::ext_equal]
pub struct ClassModel {
    pub fields: Seq<u16>,
    pub version: u32,
}

impl View for ClassIdentification {
    type V = ClassModel;

    open spec fn view(&self) -> ClassModel {
        ClassModel { fields: self.fields@, version: self.version }
    }
}

/// The name of the standard class at a position in the tree. A vendor's own classes have none.
pub open spec fn class_name(fields: Seq<u16>) -> Option<Seq<char>> {
    if fields == seq![1u16] {
        Some("OcaRoot"@)
    } else if fields == seq![1u16, 1u16] {
        Some("OcaWorker"@)
    } else if fields == seq![1u16, 2u16] {
        Some("OcaAgent"@)
    } else if fields == seq![1u16, 3u16] {
        Some("OcaManager"@)
    } else if fields == seq![1u16, 1u16, 1u16] {
        Some("OcaActuator"@)
    } else if fields == seq![1u16, 1u16, 2u16] {
        Some("OcaSensor"@)
    } else if fields == seq![1u16, 1u16, 3u16] {
        Some("OcaBlock"@)
    } else if fields == seq![1u16, 1u16, 1u16, 1u16] {
        Some("OcaBasicActuator"@)
    } else if fields == seq![1u16, 1u16, 1u16, 2u16] {
        Some("OcaMute"@)
    } else if fields == seq![1u16, 1u16, 1u16, 3u16] {
        Some("OcaPolarity"@)
    } else if fields == seq![1u16, 1u16, 1u16, 4u16] {
        Some("OcaSwitch"@)
    } else if fields == seq![1u16, 1u16, 1u16, 5u16] {
        Some("OcaGain"@)
    } else if fields == seq![1u16, 1u16, 1u16, 6u16] {
        Some("OcaDelay"@)
    } else if fields == seq![1u16, 1u16, 1u16, 1u16, 1u16] {
        Some("OcaBooleanActuator"@)
    } else if fields == seq![1u16, 1u16, 1u16, 1u16, 3u16] {
        Some("OcaInt32Actuator"@)
    } else if fields == seq![1u16, 1u16, 1u16, 1u16, 6u16] {
        Some("OcaFloat32Actuator"@)
    } else if fields == seq![1u16, 1u16, 1u16, 1u16, 7u16] {
        Some("OcaStringActuator"@)
    } else if fields == seq![1u16, 1u16, 2u16, 1u16] {
        Some("OcaBasicSensor"@)
    } else if fields == seq![1u16, 1u16, 2u16, 2u16] {
        Some("OcaLevelSensor"@)
    } else if fields == seq![1u16, 1u16, 2u16, 1u16, 1u16] {
        Some("OcaBooleanSensor"@)
    } else if fields == seq![1u16, 1u16, 2u16, 1u16, 3u16] {
        Some("OcaInt32Sensor"@)
    } else if fields == seq![1u16, 1u16, 2u16, 1u16, 6u16] {
        Some("OcaStringSensor"@)
    } else if fields == seq![1u16, 1u16, 2u16, 2u16, 1u16] {
        Some("OcaAudioLevelSensor"@)
    } else if fields == seq![1u16, 3u16, 1u16] {
        Some("OcaDeviceManager"@)
    } else if fields == seq![1u16, 3u16, 4u16] {
        Some("OcaSubscriptionManager"@)
    } else {
        None
    }
}

/// Whether a position in the class tree is that of `OcaBlock`.
pub open spec fn is_block_class(fields: Seq<u16>) -> bool {
    fields == seq![1u16, 1u16, 3u16]
}

/// Whether a position in the class tree is `path`.
pub fn is_path(fields: &[u16], path: &[u16]) -> (r: bool)
    ensures
        r == (fields@ =~= path@),
{
    if fields.len() != path.len() {
        return false;
    }
    let mut i: usize = 0;
    while i < fields.len()
        invariant
            i <= fields.len(),
            fields.len() == path.len(),
            forall|j: int| 0 <= j < i ==> fields@[j] == path@[j],
        decreases fields.len() - i,
    {
        if fields[i] != path[i] {
            assert(fields@[i as int] != path@[i as int]);
            return false;
        }
        i = i + 1;
    }
    true
}

impl ClassIdentification {
    /// Inheritance depth, which is what a property's definition level counts: the low sixteen
    /// bits of the number of fields.
    pub fn depth(&self) -> (r: u16)
        ensures
            r == self.fields@.len() % 65536,
    {
        (self.fields.len() as u64 % 65536) as u16
    }

    /// The name of the common standard classes; a vendor's own have none.
    pub fn name(&self) -> (r: Option<&'static str>)
        ensures
            match r {
                Some(n) => class_name(self.fields@) == Some(n@),
                None => class_name(self.fields@) is None,
            },
    {
        let f = self.fields.as_slice();
        proof {
            assert([1u16]@ =~= seq![1u16]);
            assert([1u16, 1u16]@ =~= seq![1u16, 1u16]);
            assert([1u16, 2u16]@ =~= seq![1u16, 2u16]);
            assert([1u16, 3u16]@ =~= seq![1u16, 3u16]);
            assert([1u16, 1u16, 1u16]@ =~= seq![1u16, 1u16, 1u16]);
            assert([1u16, 1u16, 2u16]@ =~= seq![1u16, 1u16, 2u16]);
            assert([1u16, 1u16, 3u16]@ =~= seq![1u16, 1u16, 3u16]);
            assert([1u16, 1u16, 1u16, 1u16]@ =~= seq![1u16, 1u16, 1u16, 1u16]);
            assert([1u16, 1u16, 1u16, 2u16]@ =~= seq![1u16, 1u16, 1u16, 2u16]);
            assert([1u16, 1u16, 1u16, 3u16]@ =~= seq![1u16, 1u16, 1u16, 3u16]);
            assert([1u16, 1u16, 1u16, 4u16]@ =~= seq![1u16, 1u16, 1u16, 4u16]);
            assert([1u16, 1u16, 1u16, 5u16]@ =~= seq![1u16, 1u16, 1u16, 5u16]);
            assert([1u16, 1u16, 1u16, 6u16]@ =~= seq![1u16, 1u16, 1u16, 6u16]);
            assert([1u16, 1u16, 1u16, 1u16, 1u16]@ =~= seq![1u16, 1u16, 1u16, 1u16, 1u16]);
            assert([1u16, 1u16, 1u16, 1u16, 3u16]@ =~= seq![1u16, 1u16, 1u16, 1u16, 3u16]);
            assert([1u16, 1u16, 1u16, 1u16, 6u16]@ =~= seq![1u16, 1u16, 1u16, 1u16, 6u16]);
            assert([1u16, 1u16, 1u16, 1u16, 7u16]@ =~= seq![1u16, 1u16, 1u16, 1u16, 7u16]);
            assert([1u16, 1u16, 2u16, 1u16]@ =~= seq![1u16, 1u16, 2u16, 1u16]);
            assert([1u16, 1u16, 2u16, 2u16]@ =~= seq![1u16, 1u16, 2u16, 2u16]);
            assert([1u16, 1u16, 2u16, 1u16, 1u16]@ =~= seq![1u16, 1u16, 2u16, 1u16, 1u16]);
            assert([1u16, 1u16, 2u16, 1u16, 3u16]@ =~= seq![1u16, 1u16, 2u16, 1u16, 3u16]);
            assert([1u16, 1u16, 2u16, 1u16, 6u16]@ =~= seq![1u16, 1u16, 2u16, 1u16, 6u16]);
            assert([1u16, 1u16, 2u16, 2u16, 1u16]@ =~= seq![1u16, 1u16, 2u16, 2u16, 1u16]);
            assert([1u16, 3u16, 1u16]@ =~= seq![1u16, 3u16, 1u16]);
            assert([1u16, 3u16, 4u16]@ =~= seq![1u16, 3u16, 4u16]);
        }
        if is_path(f, &[1]) {
            Some("OcaRoot")
        } else if is_path(f, &[1, 1]) {
            Some("OcaWorker")
        } else if is_path(f, &[1, 2]) {
            Some("OcaAgent")
        } else if is_path(f, &[1, 3]) {
            Some("OcaManager")
        } else if is_path(f, &[1, 1, 1]) {
            Some("OcaActuator")
        } else if is_path(f, &[1, 1, 2]) {
            Some("OcaSensor")
        } else if is_path(f, &[1, 1, 3]) {
            Some("OcaBlock")
        } else if is_path(f, &[1, 1, 1, 1]) {
            Some("OcaBasicActuator")
        } else if is_path(f, &[1, 1, 1, 2]) {
            Some("OcaMute")
        } else if is_path(f, &[1, 1, 1, 3]) {
            Some("OcaPolarity")
        } else if is_path(f, &[1, 1, 1, 4]) {
            Some("OcaSwitch")
        } else if is_path(f, &[1, 1, 1, 5]) {
            Some("OcaGain")
        } else if is_path(f, &[1, 1, 1, 6]) {
            Some("OcaDelay")
        } else if is_path(f, &[1, 1, 1, 1, 1]) {
            Some("OcaBooleanActuator")
        } else if is_path(f, &[1, 1, 1, 1, 3]) {
            Some("OcaInt32Actuator")
        } else if is_path(f, &[1, 1, 1, 1, 6]) {
            Some("OcaFloat32Actuator")
        } else if is_path(f, &[1, 1, 1, 1, 7]) {
            Some("OcaStringActuator")
        } else if is_path(f, &[1, 1, 2, 1]) {
            Some("OcaBasicSensor")
        } else if is_path(f, &[1, 1, 2, 2]) {
            Some("OcaLevelSensor")
        } else if is_path(f, &[1, 1, 2, 1, 1]) {
            Some("OcaBooleanSensor")
        } else if is_path(f, &[1, 1, 2, 1, 3]) {
            Some("OcaInt32Sensor")
        } else if is_path(f, &[1, 1, 2, 1, 6]) {
            Some("OcaStringSensor")
        } else if is_path(f, &[1, 1, 2, 2, 1]) {
            Some("OcaAudioLevelSensor")
        } else if is_path(f, &[1, 3, 1]) {
            Some("OcaDeviceManager")
        } else if is_path(f, &[1, 3, 4]) {
            Some("OcaSubscriptionManager")
        } else {
            None
        }
    }

    /// Whether this is a container worth walking into.
    pub fn is_block(&self) -> (r: bool)
        ensures
            r == is_block_class(self.fields@),
    {
        is_path(self.fields.as_slice(), &[1, 1, 3])
    }

    /// A copy.
    pub fn duplicate(&self) -> (r: Self)
        ensures
            r@ == self@,
    {
        ClassIdentification {
            fields: vstd::slice::slice_to_vec(self.fields.as_slice()),
            version: self.version,
        }
    }
}

/// The standard classes and where they stand in the tree; every other position has no name. A class
/// stands as deep as its members' definition level, and only a block is walked into.
pub proof fn the_standard_classes(fields: Seq<u16>)
    ensures
        class_name(seq![1u16]) == Some("OcaRoot"@),
        class_name(seq![1u16, 1u16]) == Some("OcaWorker"@),
        class_name(seq![1u16, 2u16]) == Some("OcaAgent"@),
        class_name(seq![1u16, 3u16]) == Some("OcaManager"@),
        class_name(seq![1u16, 1u16, 1u16]) == Some("OcaActuator"@),
        class_name(seq![1u16, 1u16, 2u16]) == Some("OcaSensor"@),
        class_name(seq![1u16, 1u16, 3u16]) == Some("OcaBlock"@),
        class_name(seq![1u16, 1u16, 1u16, 1u16]) == Some("OcaBasicActuator"@),
        class_name(seq![1u16, 1u16, 1u16, 2u16]) == Some("OcaMute"@),
        class_name(seq![1u16, 1u16, 1u16, 3u16]) == Some("OcaPolarity"@),
        class_name(seq![1u16, 1u16, 1u16, 4u16]) == Some("OcaSwitch"@),
        class_name(seq![1u16, 1u16, 1u16, 5u16]) == Some("OcaGain"@),
        class_name(seq![1u16, 1u16, 1u16, 6u16]) == Some("OcaDelay"@),
        class_name(seq![1u16, 1u16, 1u16, 1u16, 1u16]) == Some("OcaBooleanActuator"@),
        class_name(seq![1u16, 1u16, 1u16, 1u16, 3u16]) == Some("OcaInt32Actuator"@),
        class_name(seq![1u16, 1u16, 1u16, 1u16, 6u16]) == Some("OcaFloat32Actuator"@),
        class_name(seq![1u16, 1u16, 1u16, 1u16, 7u16]) == Some("OcaStringActuator"@),
        class_name(seq![1u16, 1u16, 2u16, 1u16]) == Some("OcaBasicSensor"@),
        class_name(seq![1u16, 1u16, 2u16, 2u16]) == Some("OcaLevelSensor"@),
        class_name(seq![1u16, 1u16, 2u16, 1u16, 1u16]) == Some("OcaBooleanSensor"@),
        class_name(seq![1u16, 1u16, 2u16, 1u16, 3u16]) == Some("OcaInt32Sensor"@),
        class_name(seq![1u16, 1u16, 2u16, 1u16, 6u16]) == Some("OcaStringSensor"@),
        class_name(seq![1u16, 1u16, 2u16, 2u16, 1u16]) == Some("OcaAudioLevelSensor"@),
        class_name(seq![1u16, 3u16, 1u16]) == Some("OcaDeviceManager"@),
        class_name(seq![1u16, 3u16, 4u16]) == Some("OcaSubscriptionManager"@),
        class_name(fields) is Some ==> 1 <= fields.len() <= 5 && fields[0] == 1,
        seq![1u16].len() == level::ROOT,
        seq![1u16, 1u16].len() == level::WORKER,
        seq![1u16, 2u16].len() == level::AGENT,
        seq![1u16, 3u16].len() == level::MANAGER,
        seq![1u16, 1u16, 1u16].len() == level::ACTUATOR,
        seq![1u16, 1u16, 2u16].len() == level::SENSOR,
        seq![1u16, 1u16, 3u16].len() == level::BLOCK,
        seq![1u16, 1u16, 1u16, 1u16].len() == level::BASIC_ACTUATOR,
        seq![1u16, 1u16, 1u16, 2u16].len() == level::MUTE,
        seq![1u16, 1u16, 1u16, 3u16].len() == level::POLARITY,
        seq![1u16, 1u16, 1u16, 4u16].len() == level::SWITCH,
        seq![1u16, 1u16, 1u16, 5u16].len() == level::GAIN,
        seq![1u16, 1u16, 1u16, 6u16].len() == level::DELAY,
        seq![1u16, 1u16, 1u16, 1u16, 1u16].len() == level::BOOLEAN_ACTUATOR,
        seq![1u16, 1u16, 1u16, 1u16, 3u16].len() == level::INT32_ACTUATOR,
        seq![1u16, 1u16, 1u16, 1u16, 6u16].len() == level::FLOAT32_ACTUATOR,
        seq![1u16, 1u16, 1u16, 1u16, 7u16].len() == level::STRING_ACTUATOR,
        seq![1u16, 1u16, 2u16, 1u16].len() == level::BASIC_SENSOR,
        seq![1u16, 1u16, 2u16, 2u16].len() == level::LEVEL_SENSOR,
        seq![1u16, 1u16, 2u16, 1u16, 1u16].len() == level::BOOLEAN_SENSOR,
        seq![1u16, 1u16, 2u16, 1u16, 3u16].len() == level::INT32_SENSOR,
        seq![1u16, 1u16, 2u16, 1u16, 6u16].len() == level::STRING_SENSOR,
        seq![1u16, 1u16, 2u16, 2u16, 1u16].len() == level::AUDIO_LEVEL_SENSOR,
        seq![1u16, 3u16, 4u16].len() == level::SUBSCRIPTION_MANAGER,
        is_block_class(fields) <==> fields.len() == 3 && fields[0] == 1 && fields[1] == 1 && fields[2] == 3,
{
    let p0 = seq![1u16];
    let p1 = seq![1u16, 1u16];
    let p2 = seq![1u16, 2u16];
    let p3 = seq![1u16, 3u16];
    let p4 = seq![1u16, 1u16, 1u16];
    let p5 = seq![1u16, 1u16, 2u16];
    let p6 = seq![1u16, 1u16, 3u16];
    let p7 = seq![1u16, 1u16, 1u16, 1u16];
    let p8 = seq![1u16, 1u16, 1u16, 2u16];
    let p9 = seq![1u16, 1u16, 1u16, 3u16];
    let p10 = seq![1u16, 1u16, 1u16, 4u16];
    let p11 = seq![1u16, 1u16, 1u16, 5u16];
    let p12 = seq![1u16, 1u16, 1u16, 6u16];
    let p13 = seq![1u16, 1u16, 1u16, 1u16, 1u16];
    let p14 = seq![1u16, 1u16, 1u16, 1u16, 3u16];
    let p15 = seq![1u16, 1u16, 1u16, 1u16, 6u16];
    let p16 = seq![1u16, 1u16, 1u16, 1u16, 7u16];
    let p17 = seq![1u16, 1u16, 2u16, 1u16];
    let p18 = seq![1u16, 1u16, 2u16, 2u16];
    let p19 = seq![1u16, 1u16, 2u16, 1u16, 1u16];
    let p20 = seq![1u16, 1u16, 2u16, 1u16, 3u16];
    let p21 = seq![1u16, 1u16, 2u16, 1u16, 6u16];
    let p22 = seq![1u16, 1u16, 2u16, 2u16, 1u16];
    let p23 = seq![1u16, 3u16, 1u16];
    let p24 = seq![1u16, 3u16, 4u16];
    assert(p0.len() == 1 && p0[0] == 1);
    assert(p1.len() == 2 && p1[0] == 1 && p1[1] == 1);
    assert(p2.len() == 2 && p2[0] == 1 && p2[1] == 2);
    assert(p3.len() == 2 && p3[0] == 1 && p3[1] == 3);
    assert(p4.len() == 3 && p4[0] == 1 && p4[1] == 1 && p4[2] == 1);
    assert(p5.len() == 3 && p5[0] == 1 && p5[1] == 1 && p5[2] == 2);
    assert(p6.len() == 3 && p6[0] == 1 && p6[1] == 1 && p6[2] == 3);
    assert(p7.len() == 4 && p7[0] == 1 && p7[1] == 1 && p7[2] == 1 && p7[3] == 1);
    assert(p8.len() == 4 && p8[0] == 1 && p8[1] == 1 && p8[2] == 1 && p8[3] == 2);
    assert(p9.len() == 4 && p9[0] == 1 && p9[1] == 1 && p9[2] == 1 && p9[3] == 3);
    assert(p10.len() == 4 && p10[0] == 1 && p10[1] == 1 && p10[2] == 1 && p10[3] == 4);
    assert(p11.len() == 4 && p11[0] == 1 && p11[1] == 1 && p11[2] == 1 && p11[3] == 5);
    assert(p12.len() == 4 && p12[0] == 1 && p12[1] == 1 && p12[2] == 1 && p12[3] == 6);
    assert(p13.len() == 5 && p13[0] == 1 && p13[1] == 1 && p13[2] == 1 && p13[3] == 1 && p13[4] == 1);
    assert(p14.len() == 5 && p14[0] == 1 && p14[1] == 1 && p14[2] == 1 && p14[3] == 1 && p14[4] == 3);
    assert(p15.len() == 5 && p15[0] == 1 && p15[1] == 1 && p15[2] == 1 && p15[3] == 1 && p15[4] == 6);
    assert(p16.len() == 5 && p16[0] == 1 && p16[1] == 1 && p16[2] == 1 && p16[3] == 1 && p16[4] == 7);
    assert(p17.len() == 4 && p17[0] == 1 && p17[1] == 1 && p17[2] == 2 && p17[3] == 1);
    assert(p18.len() == 4 && p18[0] == 1 && p18[1] == 1 && p18[2] == 2 && p18[3] == 2);
    assert(p19.len() == 5 && p19[0] == 1 && p19[1] == 1 && p19[2] == 2 && p19[3] == 1 && p19[4] == 1);
    assert(p20.len() == 5 && p20[0] == 1 && p20[1] == 1 && p20[2] == 2 && p20[3] == 1 && p20[4] == 3);
    assert(p21.len() == 5 && p21[0] == 1 && p21[1] == 1 && p21[2] == 2 && p21[3] == 1 && p21[4] == 6);
    assert(p22.len() == 5 && p22[0] == 1 && p22[1] == 1 && p22[2] == 2 && p22[3] == 2 && p22[4] == 1);
    assert(p23.len() == 3 && p23[0] == 1 && p23[1] == 3 && p23[2] == 1);
    assert(p24.len() == 3 && p24[0] == 1 && p24[1] == 3 && p24[2] == 4);
    if fields.len() == 3 && fields[0] == 1 && fields[1] == 1 && fields[2] == 3 {
        assert(fields =~= seq![1u16, 1u16, 3u16]);
    }
}

} // verus!
