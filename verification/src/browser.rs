//! The browsers whose cookie stores are known.
use vstd::prelude::*;

use crate::error::{error3, outcome, SimpleError};
use crate::text::{lowered, same, small_letters, Text};

verus! {

/// A browser, or the wish to try all of them.
#[derive(Debug, Clone, Copy, PartialEq, Eq, Structural)]
pub enum BrowserKind {
    Auto,
    Firefox,
    Chrome,
    Brave,
    Edge,
    Comet,
    Chromium,
}

impl View for BrowserKind {
    type V = BrowserKind;

    open spec fn view(&self) -> BrowserKind {
        *self
    }
}

/// The browser of a name, in which capital and small letters count the same.
pub open spec fn browser_named(raw: Text) -> Result<BrowserKind, Text> {
    let name = small_letters(raw);
    if name == "auto"@ {
        Ok(BrowserKind::Auto)
    } else if name == "firefox"@ {
        Ok(BrowserKind::Firefox)
    } else if name == "chrome"@ {
        Ok(BrowserKind::Chrome)
    } else if name == "brave"@ {
        Ok(BrowserKind::Brave)
    } else if name == "edge"@ {
        Ok(BrowserKind::Edge)
    } else if name == "comet"@ {
        Ok(BrowserKind::Comet)
    } else if name == "chromium"@ {
        Ok(BrowserKind::Chromium)
    } else {
        Err("unknown browser `"@ + raw + "`"@)
    }
}

impl Default for BrowserKind {
    fn default() -> (r: Self)
        ensures
            r == BrowserKind::Auto,
    {
        BrowserKind::Auto
    }
}

impl BrowserKind {
    /// The browser of a name.
    pub fn parse(raw: &str) -> (r: Result<Self, SimpleError>)
        ensures
            outcome(r) == browser_named(raw@),
    {
        let name = lowered(raw);
        let name = name.as_str();
        if same(name, "auto") {
            Ok(BrowserKind::Auto)
        } else if same(name, "firefox") {
            Ok(BrowserKind::Firefox)
        } else if same(name, "chrome") {
            Ok(BrowserKind::Chrome)
        } else if same(name, "brave") {
            Ok(BrowserKind::Brave)
        } else if same(name, "edge") {
            Ok(BrowserKind::Edge)
        } else if same(name, "comet") {
            Ok(BrowserKind::Comet)
        } else if same(name, "chromium") {
            Ok(BrowserKind::Chromium)
        } else {
            Err(error3("unknown browser `", raw, "`"))
        }
    }

    /// The name of the browser in configuration files.
    pub open spec fn spec_name(self) -> Text {
        match self {
            BrowserKind::Auto => "auto"@,
            BrowserKind::Firefox => "firefox"@,
            BrowserKind::Chrome => "chrome"@,
            BrowserKind::Brave => "brave"@,
            BrowserKind::Edge => "edge"@,
            BrowserKind::Comet => "comet"@,
            BrowserKind::Chromium => "chromium"@,
        }
    }

    /// The name of the browser in configuration files.
    pub fn name(self) -> (r: &'static str)
        ensures
            r@ == self.spec_name(),
    {
        match self {
            BrowserKind::Auto => "auto",
            BrowserKind::Firefox => "firefox",
            BrowserKind::Chrome => "chrome",
            BrowserKind::Brave => "brave",
            BrowserKind::Edge => "edge",
            BrowserKind::Comet => "comet",
            BrowserKind::Chromium => "chromium",
        }
    }
}

/// The name of a browser stands for that browser.
pub proof fn law_browser_name_reads_back(kind: BrowserKind)
    ensures
        browser_named(kind.spec_name()) == Ok::<BrowserKind, Text>(kind),
{
    reveal_strlit("auto");
    reveal_strlit("firefox");
    reveal_strlit("chrome");
    reveal_strlit("brave");
    reveal_strlit("edge");
    reveal_strlit("comet");
    reveal_strlit("chromium");
    assert(small_letters(kind.spec_name()) =~= kind.spec_name());
    assert("auto"@[0] == 'a' && "edge"@[0] == 'e');
    assert("brave"@[0] == 'b' && "comet"@[0] == 'c');
}

/// A browser is called by its name in capital or small letters, and by no other name.
pub proof fn law_browser_is_called_by_its_name(raw: Text)
    ensures
        browser_named(raw) == Ok::<BrowserKind, Text>(BrowserKind::Auto) <==> small_letters(raw)
            == "auto"@,
        browser_named(raw) == Ok::<BrowserKind, Text>(BrowserKind::Firefox) <==> small_letters(raw)
            == "firefox"@,
        browser_named(raw) == Ok::<BrowserKind, Text>(BrowserKind::Chrome) <==> small_letters(raw)
            == "chrome"@,
        browser_named(raw) == Ok::<BrowserKind, Text>(BrowserKind::Brave) <==> small_letters(raw)
            == "brave"@,
        browser_named(raw) == Ok::<BrowserKind, Text>(BrowserKind::Edge) <==> small_letters(raw)
            == "edge"@,
        browser_named(raw) == Ok::<BrowserKind, Text>(BrowserKind::Comet) <==> small_letters(raw)
            == "comet"@,
        browser_named(raw) == Ok::<BrowserKind, Text>(BrowserKind::Chromium) <==> small_letters(raw)
            == "chromium"@,
{
    reveal_strlit("auto");
    reveal_strlit("firefox");
    reveal_strlit("chrome");
    reveal_strlit("brave");
    reveal_strlit("edge");
    reveal_strlit("comet");
    reveal_strlit("chromium");
    assert("auto"@[0] == 'a' && "edge"@[0] == 'e');
    assert("brave"@[0] == 'b' && "comet"@[0] == 'c');
    assert("auto"@.len() == 4 && "firefox"@.len() == 7 && "chrome"@.len() == 6 && "brave"@.len()
        == 5 && "edge"@.len() == 4 && "comet"@.len() == 5 && "chromium"@.len() == 8);
}

} // verus!
