//! The export of the achievements of a game: what is reported while it
//! runs, where the icons go, and the list that is written at its end.

use crate::models::{ExportProgress, HydraAchievement, HydraAchievementModel};
use crate::text::{decimal, push_decimal};
use vstd::prelude::*;
use vstd::string::*;

verus! {

/// One achievement as the export lists it. `hidden` is 1 or 0, and the
/// icons are named by their files within the export.
#[derive(Debug, PartialEq, Eq)]
pub struct ExportedAchievement {
    pub name: String,
    pub display_name: String,
    pub description: String,
    pub hidden: u8,
    pub icon: String,
    pub icongray: String,
}

/// What an `ExportedAchievement` holds.
pub struct ExportedAchievementModel {
    pub name: Seq<char>,
    pub display_name: Seq<char>,
    pub description: Seq<char>,
    pub hidden: u8,
    pub icon: Seq<char>,
    pub icongray: Seq<char>,
}

impl View for ExportedAchievement {
    type V = ExportedAchievementModel;

    open spec fn view(&self) -> ExportedAchievementModel {
        ExportedAchievementModel {
            name: self.name@,
            display_name: self.display_name@,
            description: self.description@,
            hidden: self.hidden,
            icon: self.icon@,
            icongray: self.icongray@,
        }
    }
}

impl DeepView for ExportedAchievement {
    type V = ExportedAchievementModel;

    open spec fn deep_view(&self) -> ExportedAchievementModel {
        self@
    }
}

/// The file of the icon of the achievement number `number`, counted from 1.
pub open spec fn icon_file(number: nat) -> Seq<char> {
    "images/"@ + decimal(number) + ".jpg"@
}

/// The file of its grey icon.
pub open spec fn gray_icon_file(number: nat) -> Seq<char> {
    "images/"@ + decimal(number) + "_gray.jpg"@
}

/// The entry of the export for the achievement at `index`, counted from 0.
pub open spec fn exported(index: nat, a: HydraAchievementModel) -> ExportedAchievementModel {
    ExportedAchievementModel {
        name: a.name,
        display_name: a.display_name,
        description: a.description,
        hidden: if a.hidden {
            1
        } else {
            0
        },
        icon: icon_file(index + 1),
        icongray: gray_icon_file(index + 1),
    }
}

/// The rules of an export.
pub struct AchievementExporter;

impl AchievementExporter {
    /// The file of the icon of the achievement number `number`.
    pub fn icon_path(number: usize) -> (path: String)
        ensures
            path@ == icon_file(number as nat),
    {
        let mut path = "images/".to_owned();
        push_decimal(&mut path, number as u64);
        path.append(".jpg");
        path
    }

    /// The file of the grey icon of the achievement number `number`.
    pub fn gray_icon_path(number: usize) -> (path: String)
        ensures
            path@ == gray_icon_file(number as nat),
    {
        let mut path = "images/".to_owned();
        push_decimal(&mut path, number as u64);
        path.append("_gray.jpg");
        path
    }

    /// What is reported before the achievement at `index` is exported.
    pub fn progress(achievements: &[HydraAchievement], index: usize) -> (p: ExportProgress)
        requires
            index < achievements.len(),
        ensures
            p.current == index + 1,
            p.total == achievements.len(),
            p.name@ == achievements[index as int].display_name@,
            p.icon@ == achievements[index as int].icon@,
    {
        ExportProgress {
            current: index + 1,
            total: achievements.len(),
            name: achievements[index].display_name.clone(),
            icon: achievements[index].icon.clone(),
        }
    }

    /// The list that the export writes: one entry for each achievement, in
    /// order.
    pub fn export_achievements(achievements: &[HydraAchievement]) -> (list: Vec<ExportedAchievement>)
        ensures
            list.len() == achievements.len(),
            forall|i: int|
                0 <= i < list.len() ==> (#[trigger] list[i])@ == exported(
                    i as nat,
                    achievements[i]@,
                ),
    {
        let mut list: Vec<ExportedAchievement> = Vec::new();
        let mut i: usize = 0;
        while i < achievements.len()
            invariant
                i <= achievements.len(),
                list.len() == i,
                forall|k: int|
                    0 <= k < i ==> (#[trigger] list[k])@ == exported(k as nat, achievements[k]@),
            decreases achievements.len() - i,
        {
            let a = &achievements[i];
            list.push(
                ExportedAchievement {
                    name: a.name.clone(),
                    display_name: a.display_name.clone(),
                    description: a.description.clone(),
                    hidden: if a.hidden {
                        1
                    } else {
                        0
                    },
                    icon: Self::icon_path(i + 1),
                    icongray: Self::gray_icon_path(i + 1),
                },
            );
            i += 1;
        }
        list
    }
}

} // verus!
