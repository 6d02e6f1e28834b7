//! Health of a single component and of the whole stack, in the manner of an
//! Andon board: green, yellow, red, or not yet analysed.

use vstd::prelude::*;

verus! {

/// Letter grade that an external scoring step assigns to a component.
#[derive(Debug, Clone, Copy, PartialEq, Eq, Hash, Structural)]
pub enum QualityGrade {
    APlus,
    A,
    AMinus,
    BPlus,
    B,
    C,
    F,
}

/// Architectural tier of a component.
#[derive(Debug, Clone, Copy, PartialEq, Eq, Hash, Structural)]
pub enum StackLayer {
    Compute,
    Ml,
    Training,
    Transpilers,
    Orchestration,
    Quality,
    DataMlops,
}

/// Health of one component.
#[derive(Debug, Clone, Copy, PartialEq, Eq, Hash, Structural)]
pub enum HealthStatus {
    /// Healthy.
    Green,
    /// Warnings present.
    Yellow,
    /// Critical, stop the line.
    Red,
    /// Not yet analysed.
    Unknown,
}

/// The health that a grade stands for: the two best grades are green, the
/// next two yellow, every other grade red.
pub open spec fn health_of_grade(grade: QualityGrade) -> HealthStatus {
    match grade {
        QualityGrade::APlus | QualityGrade::A => HealthStatus::Green,
        QualityGrade::AMinus | QualityGrade::BPlus => HealthStatus::Yellow,
        _ => HealthStatus::Red,
    }
}

impl HealthStatus {
    /// Health that corresponds to a quality grade. Never `Unknown`.
    pub fn from_grade(grade: QualityGrade) -> (status: Self)
        ensures
            status == health_of_grade(grade),
            status != HealthStatus::Unknown,
    {
        match grade {
            QualityGrade::APlus | QualityGrade::A => HealthStatus::Green,
            QualityGrade::AMinus | QualityGrade::BPlus => HealthStatus::Yellow,
            _ => HealthStatus::Red,
        }
    }

    /// The icon of a status, as a sequence of characters.
    pub open spec fn icon_text(self) -> Seq<char> {
        match self {
            HealthStatus::Green => "🟢"@,
            HealthStatus::Yellow => "🟡"@,
            HealthStatus::Red => "🔴"@,
            HealthStatus::Unknown => "⚪"@,
        }
    }

    /// The plain symbol of a status, as a sequence of characters.
    pub open spec fn symbol_text(self) -> Seq<char> {
        match self {
            HealthStatus::Green => "●"@,
            HealthStatus::Yellow => "◐"@,
            HealthStatus::Red => "○"@,
            HealthStatus::Unknown => "◌"@,
        }
    }

    /// Icon for displays that render emoji.
    pub fn icon(&self) -> (text: &'static str)
        ensures
            text@ == self.icon_text(),
    {
        match self {
            HealthStatus::Green => "🟢",
            HealthStatus::Yellow => "🟡",
            HealthStatus::Red => "🔴",
            HealthStatus::Unknown => "⚪",
        }
    }

    /// Symbol for terminals without emoji.
    pub fn symbol(&self) -> (text: &'static str)
        ensures
            text@ == self.symbol_text(),
    {
        match self {
            HealthStatus::Green => "●",
            HealthStatus::Yellow => "◐",
            HealthStatus::Red => "○",
            HealthStatus::Unknown => "◌",
        }
    }
}

/// Status of the whole stack.
#[derive(Debug, Clone, Copy, PartialEq, Eq, Structural)]
pub enum AndonStatus {
    /// Every component is healthy.
    Green,
    /// Some component needs attention.
    Yellow,
    /// Some component is critical.
    Red,
    /// Nothing analysed yet.
    Unknown,
}

/// The status of a stack with the given counts: one red component makes the
/// stack red; else one yellow component makes it yellow; else it is green when
/// it is not empty and every component is green; else unknown.
pub open spec fn andon_of_counts(green: nat, yellow: nat, red: nat, total: nat) -> AndonStatus {
    if red > 0 {
        AndonStatus::Red
    } else if yellow > 0 {
        AndonStatus::Yellow
    } else if green == total && total > 0 {
        AndonStatus::Green
    } else {
        AndonStatus::Unknown
    }
}

impl AndonStatus {
    /// The message of a status, as a sequence of characters.
    pub open spec fn message_text(self) -> Seq<char> {
        match self {
            AndonStatus::Green => "All systems healthy"@,
            AndonStatus::Yellow => "Attention needed"@,
            AndonStatus::Red => "Stop-the-line"@,
            AndonStatus::Unknown => "Analysis pending"@,
        }
    }

    /// The icon of a status, as a sequence of characters.
    pub open spec fn icon_text(self) -> Seq<char> {
        match self {
            AndonStatus::Green => "🟢"@,
            AndonStatus::Yellow => "🟡"@,
            AndonStatus::Red => "🔴"@,
            AndonStatus::Unknown => "⚪"@,
        }
    }

    /// What a display of the status shows: icon, a space, message.
    pub open spec fn display_text(self) -> Seq<char> {
        self.icon_text() + " "@ + self.message_text()
    }

    /// Status of a stack from the number of green, yellow and red components
    /// among `total`.
    pub fn from_counts(green: usize, yellow: usize, red: usize, total: usize) -> (status: Self)
        ensures
            status == andon_of_counts(green as nat, yellow as nat, red as nat, total as nat),
    {
        if red > 0 {
            AndonStatus::Red
        } else if yellow > 0 {
            AndonStatus::Yellow
        } else if green == total && total > 0 {
            AndonStatus::Green
        } else {
            AndonStatus::Unknown
        }
    }

    /// Short message for the status.
    pub fn message(&self) -> (text: &'static str)
        ensures
            text@ == self.message_text(),
    {
        match self {
            AndonStatus::Green => "All systems healthy",
            AndonStatus::Yellow => "Attention needed",
            AndonStatus::Red => "Stop-the-line",
            AndonStatus::Unknown => "Analysis pending",
        }
    }

    /// Icon of the status.
    pub fn icon(&self) -> (text: &'static str)
        ensures
            text@ == self.icon_text(),
    {
        match self {
            AndonStatus::Green => "🟢",
            AndonStatus::Yellow => "🟡",
            AndonStatus::Red => "🔴",
            AndonStatus::Unknown => "⚪",
        }
    }

    /// Icon and message, separated by one space.
    pub fn display(&self) -> (text: String)
        ensures
            text@ == self.display_text(),
    {
        let mut text = String::from_str(self.icon());
        text.append(" ");
        text.append(self.message());
        text
    }
}

/// Worst status dominates: a stack with a red component is never reported
/// green, whatever else it holds.
pub proof fn lemma_red_dominates(green: nat, yellow: nat, red: nat, total: nat)
    requires
        red > 0,
    ensures
        andon_of_counts(green, yellow, red, total) == AndonStatus::Red,
{
}

/// A stack is reported green exactly when it is not empty, holds no red and no
/// yellow component, and all its components are green.
pub proof fn lemma_green_means_all_green(green: nat, yellow: nat, red: nat, total: nat)
    ensures
        andon_of_counts(green, yellow, red, total) == AndonStatus::Green <==> (red == 0 && yellow
            == 0 && green == total && total > 0),
{
}

} // verus!
