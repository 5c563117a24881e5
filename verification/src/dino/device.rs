//! On which device the model runs, and in which precision.

use vstd::prelude::*;
use vstd::string::*;

use crate::text::{same_text, text_of};

verus! {

/// A device to run on.
#[derive(Clone, Copy, Debug, PartialEq, Eq, Structural)]
pub enum DeviceChoice {
    Cpu,
    Metal,
    Cuda,
}

/// The error for a device name that is not known.
#[derive(Debug)]
pub struct UnknownDevice {
    pub name: String,
}

impl UnknownDevice {
    /// The text of the error.
    pub open spec fn text(self) -> Seq<char> {
        "unknown device '"@ + self.name@ + "'"@
    }

    /// The text of the error.
    pub fn message(&self) -> (text: String)
        ensures
            text@ == self.text(),
            text@ == "unknown device '"@ + self.name@ + "'"@,
    {
        let mut text = text_of("unknown device '");
        text.append(self.name.as_str());
        text.append("'");
        text
    }
}

/// The device to run on: the one asked for, or else the best that is
/// available.
pub fn pick_device(asked: Option<&str>, has_metal: bool, has_cuda: bool) -> (choice: Result<
    DeviceChoice,
    UnknownDevice,
>)
    ensures
        match asked {
            Some(name) => {
                &&& name@ == "cpu"@ ==> choice == Ok::<_, UnknownDevice>(DeviceChoice::Cpu)
                &&& name@ == "metal"@ ==> choice == Ok::<_, UnknownDevice>(DeviceChoice::Metal)
                &&& name@ == "cuda"@ ==> choice == Ok::<_, UnknownDevice>(DeviceChoice::Cuda)
                &&& name@ != "cpu"@ && name@ != "metal"@ && name@ != "cuda"@ ==> (choice matches Err(
                    e,
                ) && e.name@ == name@)
            },
            None => choice == Ok::<_, UnknownDevice>(
                if has_metal {
                    DeviceChoice::Metal
                } else if has_cuda {
                    DeviceChoice::Cuda
                } else {
                    DeviceChoice::Cpu
                },
            ),
        },
{
    proof {
        reveal_strlit("cpu");
        reveal_strlit("metal");
        reveal_strlit("cuda");
        assert("cpu"@[1] == 'p');
        assert("cuda"@[1] == 'u');
        assert("metal"@[1] == 'e');
    }
    match asked {
        Some(name) => {
            if same_text(name, "cpu") {
                Ok(DeviceChoice::Cpu)
            } else if same_text(name, "metal") {
                Ok(DeviceChoice::Metal)
            } else if same_text(name, "cuda") {
                Ok(DeviceChoice::Cuda)
            } else {
                Err(UnknownDevice { name: text_of(name) })
            }
        },
        None => if has_metal {
            Ok(DeviceChoice::Metal)
        } else if has_cuda {
            Ok(DeviceChoice::Cuda)
        } else {
            Ok(DeviceChoice::Cpu)
        },
    }
}

/// The precision that the model is loaded and run in.
#[derive(Clone, Copy, Debug, PartialEq, Eq, Structural)]
pub enum Precision {
    F32,
    F16,
    Bf16,
}

/// The error for a precision that is not known.
#[derive(Debug)]
pub struct UnknownPrecision {
    pub name: String,
}

impl UnknownPrecision {
    /// The text of the error.
    pub open spec fn text(self) -> Seq<char> {
        "unknown dtype '"@ + self.name@ + "'"@
    }

    /// The text of the error.
    pub fn message(&self) -> (text: String)
        ensures
            text@ == self.text(),
            text@ == "unknown dtype '"@ + self.name@ + "'"@,
    {
        let mut text = text_of("unknown dtype '");
        text.append(self.name.as_str());
        text.append("'");
        text
    }
}

/// The precision with the given name.
pub fn pick_precision(name: &str) -> (choice: Result<Precision, UnknownPrecision>)
    ensures
        name@ == "f32"@ ==> choice == Ok::<_, UnknownPrecision>(Precision::F32),
        name@ == "f16"@ ==> choice == Ok::<_, UnknownPrecision>(Precision::F16),
        name@ == "bf16"@ ==> choice == Ok::<_, UnknownPrecision>(Precision::Bf16),
        name@ != "f32"@ && name@ != "f16"@ && name@ != "bf16"@ ==> (choice matches Err(e)
            && e.name@ == name@),
{
    proof {
        reveal_strlit("f32");
        reveal_strlit("f16");
        reveal_strlit("bf16");
        assert("f32"@[1] == '3');
        assert("f16"@[1] == '1');
        assert("bf16"@[1] == 'f');
    }
    if same_text(name, "f32") {
        Ok(Precision::F32)
    } else if same_text(name, "f16") {
        Ok(Precision::F16)
    } else if same_text(name, "bf16") {
        Ok(Precision::Bf16)
    } else {
        Err(UnknownPrecision { name: text_of(name) })
    }
}

} // verus!
