use vstd::prelude::*;

use crate::text::concat;

verus! {

/// Why the running system has no bottle platform.
#[derive(Debug, PartialEq, Eq, Structural, Clone, Copy)]
pub enum PlatformError {
    NotMacos,
    UnsupportedMacosVersion,
    UnsupportedArchitecture,
}

/// The release name of a macOS version, if bottles exist for it.
pub open spec fn release_name(major: u64, minor: u64) -> Option<Seq<char>> {
    if major == 14 {
        Some("sonoma"@)
    } else if major == 13 {
        Some("ventura"@)
    } else if major == 12 {
        Some("monterey"@)
    } else if major == 11 {
        Some("big_sur"@)
    } else if major == 10 && minor == 15 {
        Some("catalina"@)
    } else if major == 10 && minor == 14 {
        Some("mojave"@)
    } else if major == 10 && minor == 13 {
        Some("high_sierra"@)
    } else if major == 10 && minor == 12 {
        Some("sierra"@)
    } else if major == 10 && minor == 11 {
        Some("el_capitan"@)
    } else if major == 10 && minor == 10 {
        Some("yosemite"@)
    } else {
        None
    }
}

fn release(major: u64, minor: u64) -> (r: Option<&'static str>)
    ensures
        match r {
            Some(s) => release_name(major, minor) == Some(s@),
            None => release_name(major, minor) is None,
        },
{
    if major == 14 {
        Some("sonoma")
    } else if major == 13 {
        Some("ventura")
    } else if major == 12 {
        Some("monterey")
    } else if major == 11 {
        Some("big_sur")
    } else if major == 10 && minor == 15 {
        Some("catalina")
    } else if major == 10 && minor == 14 {
        Some("mojave")
    } else if major == 10 && minor == 13 {
        Some("high_sierra")
    } else if major == 10 && minor == 12 {
        Some("sierra")
    } else if major == 10 && minor == 11 {
        Some("el_capitan")
    } else if major == 10 && minor == 10 {
        Some("yosemite")
    } else {
        None
    }
}

/// The bottle platform identifier of a system: the macOS release name, with
/// `arm64_` in front on Apple silicon. `version` is `(major, minor)` where the
/// version is semantic; `arch` is the machine architecture, if known.
pub fn platform_name(is_macos: bool, version: Option<(u64, u64)>, arch: Option<&str>) -> (r: Result<String, PlatformError>)
    ensures
        !is_macos ==> r == Err::<String, PlatformError>(PlatformError::NotMacos),
        is_macos ==> match version {
            None => r == Err::<String, PlatformError>(PlatformError::UnsupportedMacosVersion),
            Some(v) => match release_name(v.0, v.1) {
                None => r == Err::<String, PlatformError>(PlatformError::UnsupportedMacosVersion),
                Some(rel) => match arch {
                    Some(a) => if a@ == "arm64"@ {
                        r matches Ok(s) && s@ == "arm64_"@ + rel
                    } else if a@ == "x86_64"@ {
                        r matches Ok(s) && s@ == rel
                    } else {
                        r == Err::<String, PlatformError>(PlatformError::UnsupportedArchitecture)
                    },
                    None => r == Err::<String, PlatformError>(PlatformError::UnsupportedArchitecture),
                },
            },
        },
{
    if !is_macos {
        return Err(PlatformError::NotMacos);
    }
    let rel = match version {
        Some((major, minor)) => match release(major, minor) {
            Some(s) => s,
            None => return Err(PlatformError::UnsupportedMacosVersion),
        },
        None => return Err(PlatformError::UnsupportedMacosVersion),
    };
    let a = match arch {
        Some(a) => a,
        None => return Err(PlatformError::UnsupportedArchitecture),
    };
    let owned = a.to_owned();
    let arm = "arm64".to_owned();
    let intel = "x86_64".to_owned();
    proof {
        reveal_strlit("arm64");
        reveal_strlit("x86_64");
    }
    if owned == arm {
        Ok(concat("arm64_", rel))
    } else if owned == intel {
        Ok(rel.to_owned())
    } else {
        Err(PlatformError::UnsupportedArchitecture)
    }
}

} // verus!
