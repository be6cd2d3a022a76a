//! What the tray says.

use vstd::prelude::*;
use vstd::string::*;

use crate::state::Snapshot;
use crate::text::{dec, dec_u64};

verus! {

pub const TRAY_ID: &'static str = "fabrix-proxy-tray";

/// The texts of the tray's menu.
#[derive(Debug)]
pub struct TrayTexts {
    pub status: &'static str,
    pub url: String,
    pub toggle: &'static str,
    /// The address can be copied.
    pub can_copy: bool,
    pub tooltip: String,
}

impl TrayTexts {
    pub fn of(snapshot: &Snapshot) -> (r: TrayTexts)
        ensures
            r.can_copy == snapshot.running,
            if snapshot.running {
                &&& r.status@ == "● 프록시 실행 중"@
                &&& r.url == snapshot.base_url
                &&& r.toggle@ == "프록시 끄기"@
                &&& r.tooltip@ == "AI 프록시 · "@ + snapshot.base_url@
            } else {
                &&& r.status@ == "○ 프록시 꺼짐"@
                &&& r.url@ == "포트 "@ + dec(snapshot.port as nat)
                &&& r.toggle@ == "프록시 켜기"@
                &&& r.tooltip@ == "AI 프록시 · 꺼짐"@
            },
    {
        if snapshot.running {
            TrayTexts {
                status: "● 프록시 실행 중",
                url: snapshot.base_url.clone(),
                toggle: "프록시 끄기",
                can_copy: true,
                tooltip: "AI 프록시 · ".to_owned().concat(snapshot.base_url.as_str()),
            }
        } else {
            TrayTexts {
                status: "○ 프록시 꺼짐",
                url: "포트 ".to_owned().concat(dec_u64(snapshot.port as u64).as_str()),
                toggle: "프록시 켜기",
                can_copy: false,
                tooltip: "AI 프록시 · 꺼짐".to_owned(),
            }
        }
    }
}

} // verus!
