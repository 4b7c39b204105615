use vstd::prelude::*;
use crate::text::str_eq;

verus! {

/// The target's name for a construct's input socket, where it renames one.
pub open spec fn input_alias_of(construct: Seq<char>, socket: Seq<char>) -> Option<Seq<char>> {
    if construct == "ShaderNodeBsdfPrincipled"@ {
        if socket == "Subsurface"@ {
            Some("Subsurface Weight"@)
        } else if socket == "Clearcoat"@ {
            Some("Coat Weight"@)
        } else if socket == "ClearcoatRoughness"@ {
            Some("Coat Roughness"@)
        } else if socket == "Clearcoat Roughness"@ {
            Some("Coat Roughness"@)
        } else if socket == "ClearcoatNormal"@ {
            Some("Coat Normal"@)
        } else if socket == "Clearcoat Normal"@ {
            Some("Coat Normal"@)
        } else if socket == "Transmission"@ {
            Some("Transmission Weight"@)
        } else if socket == "Sheen"@ {
            Some("Sheen Weight"@)
        } else if socket == "SheenTint"@ {
            Some("Sheen Tint"@)
        } else if socket == "Specular"@ {
            Some("Specular IOR Level"@)
        } else if socket == "SpecularTint"@ {
            Some("Specular Tint"@)
        } else if socket == "AnisotropicRotation"@ {
            Some("Anisotropic Rotation"@)
        } else if socket == "SubsurfaceRadius"@ {
            Some("Subsurface Radius"@)
        } else if socket == "TransmissionRoughness"@ {
            Some("Roughness"@)
        } else if socket == "Transmission Roughness"@ {
            Some("Roughness"@)
        } else if socket == "SubsurfaceColor"@ {
            Some("Subsurface Radius"@)
        } else if socket == "BaseColor"@ {
            Some("Base Color"@)
        } else if socket == "Color"@ {
            Some("Base Color"@)
        } else {
            None
        }
    } else if construct == "ShaderNodeMapRange"@ {
        if socket == "Value"@ {
            Some("Result"@)
        } else {
            None
        }
    } else if construct == "ShaderNodeBevel"@ {
        if socket == "Size"@ {
            Some("Radius"@)
        } else {
            None
        }
    } else if construct == "ShaderNodeMath"@ {
        if socket == "Value1"@ {
            Some("0"@)
        } else if socket == "Value2"@ {
            Some("1"@)
        } else {
            None
        }
    } else if construct == "ShaderNodeVectorMath"@ {
        if socket == "Vector1"@ {
            Some("0"@)
        } else if socket == "Vector2"@ {
            Some("1"@)
        } else {
            None
        }
    } else if construct == "ShaderNodeAddShader"@ {
        if socket == "Shader1"@ {
            Some("0"@)
        } else if socket == "Shader2"@ {
            Some("1"@)
        } else {
            None
        }
    } else if construct == "ShaderNodeMixShader"@ {
        if socket == "Shader1"@ {
            Some("1"@)
        } else if socket == "Shader2"@ {
            Some("2"@)
        } else {
            None
        }
    } else if construct == "ShaderNodeMix"@ {
        if socket == "Fac"@ {
            Some("Factor"@)
        } else if socket == "ValueDisable"@ {
            Some("A"@)
        } else if socket == "ValueEnable"@ {
            Some("B"@)
        } else if socket == "Value1"@ {
            Some("A"@)
        } else if socket == "Value2"@ {
            Some("B"@)
        } else if socket == "Color1"@ {
            Some("A"@)
        } else if socket == "Color2"@ {
            Some("B"@)
        } else {
            None
        }
    } else {
        None
    }
}

/// The target's name for a construct's input socket, where it renames one.
pub fn input_alias(construct: &str, socket: &str) -> (r: Option<&'static str>)
    ensures
        r matches Some(a) ==> input_alias_of(construct@, socket@) == Some(a@),
        r is None ==> input_alias_of(construct@, socket@) is None,
{
    if str_eq(construct, "ShaderNodeBsdfPrincipled") {
        if str_eq(socket, "Subsurface") {
            Some("Subsurface Weight")
        } else if str_eq(socket, "Clearcoat") {
            Some("Coat Weight")
        } else if str_eq(socket, "ClearcoatRoughness") {
            Some("Coat Roughness")
        } else if str_eq(socket, "Clearcoat Roughness") {
            Some("Coat Roughness")
        } else if str_eq(socket, "ClearcoatNormal") {
            Some("Coat Normal")
        } else if str_eq(socket, "Clearcoat Normal") {
            Some("Coat Normal")
        } else if str_eq(socket, "Transmission") {
            Some("Transmission Weight")
        } else if str_eq(socket, "Sheen") {
            Some("Sheen Weight")
        } else if str_eq(socket, "SheenTint") {
            Some("Sheen Tint")
        } else if str_eq(socket, "Specular") {
            Some("Specular IOR Level")
        } else if str_eq(socket, "SpecularTint") {
            Some("Specular Tint")
        } else if str_eq(socket, "AnisotropicRotation") {
            Some("Anisotropic Rotation")
        } else if str_eq(socket, "SubsurfaceRadius") {
            Some("Subsurface Radius")
        } else if str_eq(socket, "TransmissionRoughness") {
            Some("Roughness")
        } else if str_eq(socket, "Transmission Roughness") {
            Some("Roughness")
        } else if str_eq(socket, "SubsurfaceColor") {
            Some("Subsurface Radius")
        } else if str_eq(socket, "BaseColor") {
            Some("Base Color")
        } else if str_eq(socket, "Color") {
            Some("Base Color")
        } else {
            None
        }
    } else if str_eq(construct, "ShaderNodeMapRange") {
        if str_eq(socket, "Value") {
            Some("Result")
        } else {
            None
        }
    } else if str_eq(construct, "ShaderNodeBevel") {
        if str_eq(socket, "Size") {
            Some("Radius")
        } else {
            None
        }
    } else if str_eq(construct, "ShaderNodeMath") {
        if str_eq(socket, "Value1") {
            Some("0")
        } else if str_eq(socket, "Value2") {
            Some("1")
        } else {
            None
        }
    } else if str_eq(construct, "ShaderNodeVectorMath") {
        if str_eq(socket, "Vector1") {
            Some("0")
        } else if str_eq(socket, "Vector2") {
            Some("1")
        } else {
            None
        }
    } else if str_eq(construct, "ShaderNodeAddShader") {
        if str_eq(socket, "Shader1") {
            Some("0")
        } else if str_eq(socket, "Shader2") {
            Some("1")
        } else {
            None
        }
    } else if str_eq(construct, "ShaderNodeMixShader") {
        if str_eq(socket, "Shader1") {
            Some("1")
        } else if str_eq(socket, "Shader2") {
            Some("2")
        } else {
            None
        }
    } else if str_eq(construct, "ShaderNodeMix") {
        if str_eq(socket, "Fac") {
            Some("Factor")
        } else if str_eq(socket, "ValueDisable") {
            Some("A")
        } else if str_eq(socket, "ValueEnable") {
            Some("B")
        } else if str_eq(socket, "Value1") {
            Some("A")
        } else if str_eq(socket, "Value2") {
            Some("B")
        } else if str_eq(socket, "Color1") {
            Some("A")
        } else if str_eq(socket, "Color2") {
            Some("B")
        } else {
            None
        }
    } else {
        None
    }
}

/// The target's name for a construct's output socket, where it renames one.
pub open spec fn output_alias_of(construct: Seq<char>, socket: Seq<char>) -> Option<Seq<char>> {
    if construct == "ShaderNodeMix"@ {
        if socket == "Value"@ {
            Some("Result"@)
        } else if socket == "ValueOut"@ {
            Some("Result"@)
        } else if socket == "Color"@ {
            Some("Result"@)
        } else {
            None
        }
    } else if construct == "ShaderNodeTexVoronoi"@ {
        if socket == "Fac"@ {
            Some("Distance"@)
        } else {
            None
        }
    } else if construct == "ShaderNodeBrightContrast"@ {
        if socket == "OutColor"@ {
            Some("Color"@)
        } else {
            None
        }
    } else {
        None
    }
}

/// The target's name for a construct's output socket, where it renames one.
pub fn output_alias(construct: &str, socket: &str) -> (r: Option<&'static str>)
    ensures
        r matches Some(a) ==> output_alias_of(construct@, socket@) == Some(a@),
        r is None ==> output_alias_of(construct@, socket@) is None,
{
    if str_eq(construct, "ShaderNodeMix") {
        if str_eq(socket, "Value") {
            Some("Result")
        } else if str_eq(socket, "ValueOut") {
            Some("Result")
        } else if str_eq(socket, "Color") {
            Some("Result")
        } else {
            None
        }
    } else if str_eq(construct, "ShaderNodeTexVoronoi") {
        if str_eq(socket, "Fac") {
            Some("Distance")
        } else {
            None
        }
    } else if str_eq(construct, "ShaderNodeBrightContrast") {
        if str_eq(socket, "OutColor") {
            Some("Color")
        } else {
            None
        }
    } else {
        None
    }
}

} // verus!
