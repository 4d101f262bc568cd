//! The backends that can be chosen by name, and where each of them runs.

use vstd::prelude::*;

use crate::text::same_text;

verus! {

/// Who asks for a backend.
#[derive(Clone, Copy, Debug, PartialEq, Eq, Structural)]
pub enum BackendConsumer {
    Cli,
    Server,
}

/// The operating system that the program was built for.
#[derive(Clone, Copy, Debug, PartialEq, Eq, Structural)]
pub enum Platform {
    MacOs,
    Linux,
    Other,
}

impl BackendConsumer {
    /// The program's name.
    pub open spec fn name_view(self) -> Seq<char> {
        match self {
            BackendConsumer::Cli => "herbert-cli"@,
            BackendConsumer::Server => "herbert-server"@,
        }
    }

    /// The program's name.
    pub fn binary_name(self) -> (name: &'static str)
        ensures
            name@ == self.name_view(),
    {
        match self {
            BackendConsumer::Cli => "herbert-cli",
            BackendConsumer::Server => "herbert-server",
        }
    }
}

/// Whether a backend runs here, and if not, why.
#[derive(Clone, Copy, Debug)]
pub enum BackendAvailability {
    Available,
    Unavailable(&'static str),
}

impl BackendAvailability {
    /// Whether the backend runs here.
    pub fn is_available(self) -> (b: bool)
        ensures
            b == (self is Available),
    {
        match self {
            BackendAvailability::Available => true,
            BackendAvailability::Unavailable(_) => false,
        }
    }

    /// Why the backend does not run here.
    pub fn reason(self) -> (reason: Option<&'static str>)
        ensures
            reason == (match self {
                BackendAvailability::Available => None,
                BackendAvailability::Unavailable(why) => Some(why),
            }),
    {
        match self {
            BackendAvailability::Available => None,
            BackendAvailability::Unavailable(why) => Some(why),
        }
    }
}

/// The backends.
#[derive(Clone, Copy, Debug, PartialEq, Eq, Structural)]
pub enum BackendKind {
    Q4,
    Bf16,
    Bf16Avx512,
    Int8Avx512,
    MetalQ4,
    MetalInt8,
    MetalBf16,
    VulkanQ4,
    VulkanInt8,
    VulkanBf16,
}

/// All backends, in the order in which they are listed.
pub open spec fn all_kinds() -> Seq<BackendKind> {
    seq![
        BackendKind::Q4,
        BackendKind::Bf16,
        BackendKind::Bf16Avx512,
        BackendKind::Int8Avx512,
        BackendKind::MetalQ4,
        BackendKind::MetalInt8,
        BackendKind::MetalBf16,
        BackendKind::VulkanQ4,
        BackendKind::VulkanInt8,
        BackendKind::VulkanBf16,
    ]
}

/// All backends, in the order in which they are listed.
pub fn all_backends() -> (kinds: [BackendKind; 10])
    ensures
        kinds@ == all_kinds(),
{
    [
        BackendKind::Q4,
        BackendKind::Bf16,
        BackendKind::Bf16Avx512,
        BackendKind::Int8Avx512,
        BackendKind::MetalQ4,
        BackendKind::MetalInt8,
        BackendKind::MetalBf16,
        BackendKind::VulkanQ4,
        BackendKind::VulkanInt8,
        BackendKind::VulkanBf16,
    ]
}

impl BackendKind {
    /// Whether the backend uses Apple's graphics interface.
    pub open spec fn is_metal(self) -> bool {
        self is MetalQ4 || self is MetalInt8 || self is MetalBf16
    }

    /// Whether the backend uses the Vulkan graphics interface.
    pub open spec fn is_vulkan(self) -> bool {
        self is VulkanQ4 || self is VulkanInt8 || self is VulkanBf16
    }

    /// The name by which the backend is chosen.
    pub open spec fn name_view(self) -> Seq<char> {
        match self {
            BackendKind::Q4 => "q4"@,
            BackendKind::Bf16 => "bf16"@,
            BackendKind::Bf16Avx512 => "bf16-avx512"@,
            BackendKind::Int8Avx512 => "int8-avx512"@,
            BackendKind::MetalQ4 => "metal-q4"@,
            BackendKind::MetalInt8 => "metal-int8"@,
            BackendKind::MetalBf16 => "metal-bf16"@,
            BackendKind::VulkanQ4 => "vulkan-q4"@,
            BackendKind::VulkanInt8 => "vulkan-int8"@,
            BackendKind::VulkanBf16 => "vulkan-bf16"@,
        }
    }

    /// The name by which the backend is chosen.
    pub fn name(self) -> (name: &'static str)
        ensures
            name@ == self.name_view(),
    {
        match self {
            BackendKind::Q4 => "q4",
            BackendKind::Bf16 => "bf16",
            BackendKind::Bf16Avx512 => "bf16-avx512",
            BackendKind::Int8Avx512 => "int8-avx512",
            BackendKind::MetalQ4 => "metal-q4",
            BackendKind::MetalInt8 => "metal-int8",
            BackendKind::MetalBf16 => "metal-bf16",
            BackendKind::VulkanQ4 => "vulkan-q4",
            BackendKind::VulkanInt8 => "vulkan-int8",
            BackendKind::VulkanBf16 => "vulkan-bf16",
        }
    }

    /// Whether a program offers the backend: the server offers no Vulkan backend.
    pub open spec fn supported_by(self, consumer: BackendConsumer) -> bool {
        consumer is Cli || !self.is_vulkan()
    }

    /// Whether a program offers the backend.
    pub fn supports(self, consumer: BackendConsumer) -> (b: bool)
        ensures
            b == self.supported_by(consumer),
    {
        match consumer {
            BackendConsumer::Cli => true,
            BackendConsumer::Server => match self {
                BackendKind::VulkanQ4 | BackendKind::VulkanInt8 | BackendKind::VulkanBf16 => false,
                _ => true,
            },
        }
    }

    /// Whether the backend runs on a platform.
    pub open spec fn runs_on(self, platform: Platform) -> bool {
        &&& self.is_metal() ==> platform is MacOs
        &&& self.is_vulkan() ==> platform is Linux
    }

    /// What is missing where a backend does not run.
    pub open spec fn requirement(self) -> Seq<char> {
        if self.is_metal() {
            "requires macOS"@
        } else {
            "requires Linux"@
        }
    }

    /// Whether the backend runs on a platform, and if not, why.
    pub fn availability(self, platform: Platform) -> (a: BackendAvailability)
        ensures
            a is Available <==> self.runs_on(platform),
            a matches BackendAvailability::Unavailable(why) ==> why@ == self.requirement(),
    {
        match self {
            BackendKind::MetalQ4 | BackendKind::MetalInt8 | BackendKind::MetalBf16 => {
                match platform {
                    Platform::MacOs => BackendAvailability::Available,
                    _ => BackendAvailability::Unavailable("requires macOS"),
                }
            },
            BackendKind::VulkanQ4 | BackendKind::VulkanInt8 | BackendKind::VulkanBf16 => {
                match platform {
                    Platform::Linux => BackendAvailability::Available,
                    _ => BackendAvailability::Unavailable("requires Linux"),
                }
            },
            _ => BackendAvailability::Available,
        }
    }

    /// Whether a program on a platform can use the backend.
    pub open spec fn usable(self, consumer: BackendConsumer, platform: Platform) -> bool {
        self.supported_by(consumer) && self.runs_on(platform)
    }
}

/// The backends among the first `n` that a program on a platform can use.
pub open spec fn usable_kinds(consumer: BackendConsumer, platform: Platform, n: int) -> Seq<
    BackendKind,
>
    decreases n,
{
    if n <= 0 {
        Seq::empty()
    } else {
        let rest = usable_kinds(consumer, platform, n - 1);
        let kind = all_kinds()[n - 1];
        if kind.usable(consumer, platform) {
            rest.push(kind)
        } else {
            rest
        }
    }
}

/// The backends that a program on a platform lists.
pub open spec fn listed(consumer: BackendConsumer, platform: Platform) -> Seq<BackendKind> {
    usable_kinds(consumer, platform, 10)
}

/// The names of the backends that a program on a platform can use, in the order of the
/// list of all backends.
pub fn available_backend_names(consumer: BackendConsumer, platform: Platform) -> (names: Vec<
    &'static str,
>)
    ensures
        names@.len() == listed(consumer, platform).len(),
        forall|i: int|
            0 <= i < names@.len() ==> (#[trigger] names@[i])@ == listed(
                consumer,
                platform,
            )[i].name_view(),
{
    let kinds = all_backends();
    let mut names: Vec<&'static str> = Vec::new();
    let mut n: usize = 0;
    while n < 10
        invariant
            n <= 10,
            kinds@ == all_kinds(),
            names@.len() == usable_kinds(consumer, platform, n as int).len(),
            forall|i: int|
                0 <= i < names@.len() ==> (#[trigger] names@[i])@ == usable_kinds(
                    consumer,
                    platform,
                    n as int,
                )[i].name_view(),
        decreases 10 - n,
    {
        let kind = kinds[n];
        if kind.supports(consumer) && kind.availability(platform).is_available() {
            names.push(kind.name());
        }
        n = n + 1;
    }
    names
}

/// The backend that "auto" stands for: Metal where it can be used, else Vulkan where it
/// can be, else the processor.
pub open spec fn auto_kind(consumer: BackendConsumer, platform: Platform) -> BackendKind {
    if BackendKind::MetalQ4.usable(consumer, platform) {
        BackendKind::MetalQ4
    } else if BackendKind::VulkanQ4.usable(consumer, platform) {
        BackendKind::VulkanQ4
    } else {
        BackendKind::Q4
    }
}

/// The name of the backend that "auto" stands for.
pub fn resolve_auto(consumer: BackendConsumer, platform: Platform) -> (name: &'static str)
    ensures
        name@ == auto_kind(consumer, platform).name_view(),
{
    let metal = BackendKind::MetalQ4;
    if metal.supports(consumer) && metal.availability(platform).is_available() {
        return metal.name();
    }
    let vulkan = BackendKind::VulkanQ4;
    if vulkan.supports(consumer) && vulkan.availability(platform).is_available() {
        return vulkan.name();
    }
    BackendKind::Q4.name()
}

/// The lines of the help text for the backends `kinds`.
pub open spec fn help_lines(kinds: Seq<BackendKind>) -> Seq<char>
    decreases kinds.len(),
{
    if kinds.len() == 0 {
        Seq::empty()
    } else {
        help_lines(kinds.drop_last()) + "  "@ + kinds.last().name_view() + "\n"@
    }
}

/// The help text.
pub open spec fn help_text(consumer: BackendConsumer, platform: Platform) -> Seq<char> {
    "Available backends:\n"@ + "  auto (=> "@ + auto_kind(consumer, platform).name_view() + ")\n"@
        + help_lines(listed(consumer, platform))
}

/// The help text: what "auto" stands for, and then one line for each backend.
pub fn available_backends_help(consumer: BackendConsumer, platform: Platform) -> (help: String)
    ensures
        help@ == help_text(consumer, platform),
{
    let mut out = "Available backends:\n".to_owned();
    out.append("  auto (=> ");
    out.append(resolve_auto(consumer, platform));
    out.append(")\n");
    let ghost head = out@;
    let names = available_backend_names(consumer, platform);
    let ghost kinds = listed(consumer, platform);
    let mut i: usize = 0;
    proof {
        assert(kinds.take(0) =~= Seq::<BackendKind>::empty());
        assert(head + Seq::<char>::empty() =~= head);
    }
    while i < names.len()
        invariant
            i <= names@.len() == kinds.len(),
            forall|j: int| 0 <= j < names@.len() ==> (#[trigger] names@[j])@ == kinds[j].name_view(),
            out@ == head + help_lines(kinds.take(i as int)),
        decreases names@.len() - i,
    {
        let ghost before = out@;
        out.append("  ");
        out.append(names[i]);
        out.append("\n");
        proof {
            assert(kinds.take(i + 1).drop_last() =~= kinds.take(i as int));
            assert(out@ =~= head + help_lines(kinds.take(i + 1)));
        }
        i = i + 1;
    }
    proof {
        assert(kinds.take(i as int) =~= kinds);
    }
    out
}

/// The names of `kinds` with a comma and a space between them.
pub open spec fn comma_separated(kinds: Seq<BackendKind>) -> Seq<char>
    decreases kinds.len(),
{
    if kinds.len() == 0 {
        Seq::empty()
    } else if kinds.len() == 1 {
        kinds[0].name_view()
    } else {
        comma_separated(kinds.drop_last()) + ", "@ + kinds.last().name_view()
    }
}

/// The list of names that goes into a message.
pub open spec fn options_text(consumer: BackendConsumer, platform: Platform) -> Seq<char> {
    if listed(consumer, platform).len() == 0 {
        "none"@
    } else {
        comma_separated(listed(consumer, platform))
    }
}

/// The names of the usable backends, with a comma and a space between them.
pub fn join_backend_names(consumer: BackendConsumer, platform: Platform) -> (text: String)
    ensures
        text@ == options_text(consumer, platform),
{
    let names = available_backend_names(consumer, platform);
    let ghost kinds = listed(consumer, platform);
    if names.len() == 0 {
        return "none".to_owned();
    }
    let mut out = names[0].to_owned();
    let mut i: usize = 1;
    while i < names.len()
        invariant
            1 <= i <= names@.len() == kinds.len(),
            forall|j: int| 0 <= j < names@.len() ==> (#[trigger] names@[j])@ == kinds[j].name_view(),
            out@ == comma_separated(kinds.take(i as int)),
        decreases names@.len() - i,
    {
        out.append(", ");
        out.append(names[i]);
        proof {
            assert(kinds.take(i + 1).drop_last() =~= kinds.take(i as int));
        }
        i = i + 1;
    }
    proof {
        assert(kinds.take(i as int) =~= kinds);
    }
    out
}

/// Why a backend was refused. `options` lists what can be used instead.
#[derive(Debug)]
pub enum BackendError {
    /// No backend has the name.
    Unknown { name: String, options: String },
    /// The program does not offer the backend.
    NotSupported { name: String, binary: &'static str, options: String },
    /// The backend does not run here.
    NotAvailable { name: String, reason: &'static str, options: String },
}

impl BackendError {
    /// The message for the user.
    pub open spec fn text(self) -> Seq<char> {
        match self {
            BackendError::Unknown { name, options } => "Unknown backend: "@ + name@
                + ". Available options on this build: "@ + options@,
            BackendError::NotSupported { name, binary, options } => "Backend '"@ + name@
                + "' is not supported by "@ + binary@ + ". Available options on this build: "@
                + options@,
            BackendError::NotAvailable { name, reason, options } => "Backend '"@ + name@
                + "' is not available on this build: "@ + reason@
                + ". Available options on this build: "@ + options@,
        }
    }

    /// The message for the user.
    pub fn message(&self) -> (message: String)
        ensures
            message@ == self.text(),
    {
        match self {
            BackendError::Unknown { name, options } => {
                let mut out = "Unknown backend: ".to_owned();
                out.append(name.as_str());
                out.append(". Available options on this build: ");
                out.append(options.as_str());
                out
            },
            BackendError::NotSupported { name, binary, options } => {
                let mut out = "Backend '".to_owned();
                out.append(name.as_str());
                out.append("' is not supported by ");
                out.append(binary);
                out.append(". Available options on this build: ");
                out.append(options.as_str());
                out
            },
            BackendError::NotAvailable { name, reason, options } => {
                let mut out = "Backend '".to_owned();
                out.append(name.as_str());
                out.append("' is not available on this build: ");
                out.append(reason);
                out.append(". Available options on this build: ");
                out.append(options.as_str());
                out
            },
        }
    }
}

/// The backend that has a name.
pub fn find_backend(name: &str) -> (found: Option<BackendKind>)
    ensures
        found matches Some(kind) ==> kind.name_view() == name@,
        found is None ==> forall|kind: BackendKind| #[trigger] kind.name_view() != name@,
{
    let kinds = all_backends();
    let mut n: usize = 0;
    while n < 10
        invariant
            n <= 10,
            kinds@ == all_kinds(),
            forall|j: int| 0 <= j < n ==> (#[trigger] all_kinds()[j]).name_view() != name@,
        decreases 10 - n,
    {
        if same_text(kinds[n].name(), name) {
            return Some(kinds[n]);
        }
        n = n + 1;
    }
    proof {
        assert forall|kind: BackendKind| #[trigger] kind.name_view() != name@ by {
            lemma_kind_is_listed(kind);
            let j = choose|j: int| 0 <= j < 10 && #[trigger] all_kinds()[j] == kind;
            assert(all_kinds()[j].name_view() != name@);
        }
    }
    None
}

/// Every backend is in the list of all.
proof fn lemma_kind_is_listed(kind: BackendKind)
    ensures
        exists|j: int| 0 <= j < 10 && #[trigger] all_kinds()[j] == kind,
{
    let j: int = match kind {
        BackendKind::Q4 => 0,
        BackendKind::Bf16 => 1,
        BackendKind::Bf16Avx512 => 2,
        BackendKind::Int8Avx512 => 3,
        BackendKind::MetalQ4 => 4,
        BackendKind::MetalInt8 => 5,
        BackendKind::MetalBf16 => 6,
        BackendKind::VulkanQ4 => 7,
        BackendKind::VulkanInt8 => 8,
        BackendKind::VulkanBf16 => 9,
    };
    assert(all_kinds()[j] == kind);
}

/// The name that a request comes down to.
pub open spec fn resolved_name(consumer: BackendConsumer, platform: Platform, name: Seq<char>) -> Seq<
    char,
> {
    if name == "auto"@ {
        auto_kind(consumer, platform).name_view()
    } else {
        name
    }
}

/// Chooses the backend for a request: one that has the name (or the one that "auto"
/// stands for), that the program offers, and that runs here. The error says which of
/// these fails first.
pub fn create_backend(consumer: BackendConsumer, platform: Platform, name: &str) -> (chosen: Result<
    BackendKind,
    BackendError,
>)
    ensures
        chosen is Ok <==> exists|kind: BackendKind| #[trigger]
            kind.name_view() == resolved_name(consumer, platform, name@) && kind.usable(
                consumer,
                platform,
            ),
        name@ == "auto"@ ==> (chosen matches Ok(kind) && kind == auto_kind(consumer, platform)),
        ({
            let resolved = resolved_name(consumer, platform, name@);
            match chosen {
                Ok(kind) => kind.name_view() == resolved && kind.usable(consumer, platform),
                Err(BackendError::Unknown { name: n, options }) => {
                    &&& forall|kind: BackendKind| #[trigger] kind.name_view() != resolved
                    &&& n@ == resolved
                    &&& options@ == options_text(consumer, platform)
                },
                Err(BackendError::NotSupported { name: n, binary, options }) => {
                    &&& exists|kind: BackendKind| #[trigger]
                        kind.name_view() == resolved && !kind.supported_by(consumer)
                    &&& n@ == resolved
                    &&& binary@ == consumer.name_view()
                    &&& options@ == options_text(consumer, platform)
                },
                Err(BackendError::NotAvailable { name: n, reason, options }) => {
                    &&& exists|kind: BackendKind| #[trigger]
                        kind.name_view() == resolved && kind.supported_by(consumer)
                            && !kind.runs_on(platform) && reason@ == kind.requirement()
                    &&& n@ == resolved
                    &&& options@ == options_text(consumer, platform)
                },
            }
        }),
{
    let resolved: &str = if same_text(name, "auto") {
        resolve_auto(consumer, platform)
    } else {
        name
    };
    let kind = match find_backend(resolved) {
        Some(kind) => kind,
        None => {
            proof {
                assert(auto_kind(consumer, platform).name_view() != resolved@);
            }
            return Err(
                BackendError::Unknown {
                    name: resolved.to_owned(),
                    options: join_backend_names(consumer, platform),
                },
            );
        },
    };
    proof {
        assert forall|other: BackendKind| #[trigger] other.name_view() == resolved@ implies other
            == kind by {
            law_names_are_unique(other, kind);
        }
        law_auto_is_usable(consumer, platform);
        assert(auto_kind(consumer, platform).name_view() == resolved@ ==> auto_kind(
            consumer,
            platform,
        ) == kind);
    }
    if !kind.supports(consumer) {
        return Err(
            BackendError::NotSupported {
                name: resolved.to_owned(),
                binary: consumer.binary_name(),
                options: join_backend_names(consumer, platform),
            },
        );
    }
    match kind.availability(platform).reason() {
        Some(reason) => Err(
            BackendError::NotAvailable {
                name: resolved.to_owned(),
                reason,
                options: join_backend_names(consumer, platform),
            },
        ),
        None => Ok(kind),
    }
}

// ---------------------------------------------------------------------------
// Laws
// ---------------------------------------------------------------------------

/// No two backends share a name, and none is called "auto".
pub proof fn law_names_are_unique(a: BackendKind, b: BackendKind)
    ensures
        a.name_view() == b.name_view() ==> a == b,
        a.name_view() != "auto"@,
{
    reveal_strlit("q4");
    reveal_strlit("bf16");
    reveal_strlit("bf16-avx512");
    reveal_strlit("int8-avx512");
    reveal_strlit("metal-q4");
    reveal_strlit("metal-int8");
    reveal_strlit("metal-bf16");
    reveal_strlit("vulkan-q4");
    reveal_strlit("vulkan-int8");
    reveal_strlit("vulkan-bf16");
    reveal_strlit("auto");
    let x = a.name_view();
    let y = b.name_view();
    if x == y {
        assert(x.len() == y.len());
        assert(x[0] == y[0]);
        assert(x[1] == y[1]);
        assert(x.len() > 7 ==> x[6] == y[6] && x[7] == y[7]);
    }
    assert(x.len() == "auto"@.len() ==> x[0] != "auto"@[0]);
}

/// A list names exactly the backends that can be used.
pub proof fn law_list_is_exact(consumer: BackendConsumer, platform: Platform, kind: BackendKind)
    ensures
        listed(consumer, platform).contains(kind) <==> kind.usable(consumer, platform),
{
    lemma_usable_prefix(consumer, platform, 10, kind);
    if kind.usable(consumer, platform) {
        lemma_kind_is_listed(kind);
        let j = choose|j: int| 0 <= j < 10 && #[trigger] all_kinds()[j] == kind;
        assert(all_kinds()[j] == kind);
    }
}

proof fn lemma_usable_prefix(
    consumer: BackendConsumer,
    platform: Platform,
    n: int,
    kind: BackendKind,
)
    requires
        0 <= n <= 10,
    ensures
        usable_kinds(consumer, platform, n).contains(kind) <==> kind.usable(consumer, platform)
            && exists|j: int| 0 <= j < n && #[trigger] all_kinds()[j] == kind,
    decreases n,
{
    let all = usable_kinds(consumer, platform, n);
    if n > 0 {
        let rest = usable_kinds(consumer, platform, n - 1);
        lemma_usable_prefix(consumer, platform, n - 1, kind);
        let last = all_kinds()[n - 1];
        if rest.contains(kind) {
            let i = choose|i: int| 0 <= i < rest.len() && rest[i] == kind;
            assert(all[i] == kind);
            let j = choose|j: int| 0 <= j < n - 1 && #[trigger] all_kinds()[j] == kind;
            assert(all_kinds()[j] == kind);
        }
        if last == kind && kind.usable(consumer, platform) {
            assert(all[all.len() - 1] == kind);
        }
        if all.contains(kind) && !rest.contains(kind) {
            let i = choose|i: int| 0 <= i < all.len() && all[i] == kind;
            if i < rest.len() {
                assert(rest[i] == kind);
            }
            assert(all_kinds()[n - 1] == kind);
        }
    }
}

/// The server lists what the command line lists, in the same order, but for the Vulkan
/// backends, of which it lists none.
pub proof fn law_server_lists_no_vulkan(platform: Platform)
    ensures
        listed(BackendConsumer::Server, platform) == listed(
            BackendConsumer::Cli,
            platform,
        ).filter(|kind: BackendKind| !kind.is_vulkan()),
        forall|kind: BackendKind|
            kind.is_vulkan() ==> !(#[trigger] listed(BackendConsumer::Server, platform).contains(
                kind,
            )),
{
    lemma_server_prefix(platform, 10);
    assert forall|kind: BackendKind| kind.is_vulkan() implies !(#[trigger] listed(
        BackendConsumer::Server,
        platform,
    ).contains(kind)) by {
        law_list_is_exact(BackendConsumer::Server, platform, kind);
    }
}

proof fn lemma_server_prefix(platform: Platform, n: int)
    requires
        0 <= n <= 10,
    ensures
        usable_kinds(BackendConsumer::Server, platform, n) == usable_kinds(
            BackendConsumer::Cli,
            platform,
            n,
        ).filter(|kind: BackendKind| !kind.is_vulkan()),
    decreases n,
{
    reveal(Seq::filter);
    if n > 0 {
        lemma_server_prefix(platform, n - 1);
        let all = usable_kinds(BackendConsumer::Cli, platform, n);
        let rest = usable_kinds(BackendConsumer::Cli, platform, n - 1);
        if all_kinds()[n - 1].usable(BackendConsumer::Cli, platform) {
            assert(all.drop_last() =~= rest);
        }
    }
}

/// What "auto" stands for can always be used, so it is in the list.
pub proof fn law_auto_is_usable(consumer: BackendConsumer, platform: Platform)
    ensures
        auto_kind(consumer, platform).usable(consumer, platform),
        listed(consumer, platform).contains(auto_kind(consumer, platform)),
{
    law_list_is_exact(consumer, platform, auto_kind(consumer, platform));
}

// ---------------------------------------------------------------------------
// Names, places and messages
// ---------------------------------------------------------------------------

/// Every backend goes by its number format, behind the name of its interface where it
/// has one; programs go by their own names.
pub proof fn law_backends_have_these_names()
    ensures
        BackendKind::Q4.name_view() == "q4"@,
        BackendKind::Bf16.name_view() == "bf16"@,
        BackendKind::Bf16Avx512.name_view() == "bf16-avx512"@,
        BackendKind::Int8Avx512.name_view() == "int8-avx512"@,
        BackendKind::MetalQ4.name_view() == "metal-q4"@,
        BackendKind::MetalInt8.name_view() == "metal-int8"@,
        BackendKind::MetalBf16.name_view() == "metal-bf16"@,
        BackendKind::VulkanQ4.name_view() == "vulkan-q4"@,
        BackendKind::VulkanInt8.name_view() == "vulkan-int8"@,
        BackendKind::VulkanBf16.name_view() == "vulkan-bf16"@,
        BackendConsumer::Cli.name_view() == "herbert-cli"@,
        BackendConsumer::Server.name_view() == "herbert-server"@,
{
}

/// A backend belongs to an interface if and only if its name starts with the interface's.
pub proof fn law_names_tell_the_interface(kind: BackendKind)
    ensures
        kind.is_metal() <==> "metal-"@.is_prefix_of(kind.name_view()),
        kind.is_vulkan() <==> "vulkan-"@.is_prefix_of(kind.name_view()),
{
    reveal_strlit("q4");
    reveal_strlit("bf16");
    reveal_strlit("bf16-avx512");
    reveal_strlit("int8-avx512");
    reveal_strlit("metal-q4");
    reveal_strlit("metal-int8");
    reveal_strlit("metal-bf16");
    reveal_strlit("vulkan-q4");
    reveal_strlit("vulkan-int8");
    reveal_strlit("vulkan-bf16");
    reveal_strlit("metal-");
    reveal_strlit("vulkan-");
    let name = kind.name_view();
    let metal = "metal-"@;
    let vulkan = "vulkan-"@;
    if kind.is_metal() {
        assert(name.subrange(0, 6) =~= metal);
    } else if metal.is_prefix_of(name) {
        assert(name.subrange(0, 6)[0] == name[0]);
        assert(metal[0] == 'm');
    }
    if kind.is_vulkan() {
        assert(name.subrange(0, 7) =~= vulkan);
    } else if vulkan.is_prefix_of(name) {
        assert(name.subrange(0, 7)[0] == name[0]);
        assert(vulkan[0] == 'v');
    }
}

/// The place of a backend among all.
pub open spec fn place_of(kind: BackendKind) -> int {
    match kind {
        BackendKind::Q4 => 0,
        BackendKind::Bf16 => 1,
        BackendKind::Bf16Avx512 => 2,
        BackendKind::Int8Avx512 => 3,
        BackendKind::MetalQ4 => 4,
        BackendKind::MetalInt8 => 5,
        BackendKind::MetalBf16 => 6,
        BackendKind::VulkanQ4 => 7,
        BackendKind::VulkanInt8 => 8,
        BackendKind::VulkanBf16 => 9,
    }
}

/// All backends are listed once, each at its place.
pub proof fn law_every_backend_has_its_place(kind: BackendKind)
    ensures
        all_kinds().len() == 10,
        0 <= place_of(kind) < 10,
        all_kinds()[place_of(kind)] == kind,
{
}

/// The command line offers every backend and the server all but those for Vulkan; those
/// for Metal run on macOS alone, those for Vulkan on Linux alone, and the others
/// everywhere.
pub proof fn law_where_backends_are_usable(
    kind: BackendKind,
    consumer: BackendConsumer,
    platform: Platform,
)
    ensures
        ({
            let metal = kind is MetalQ4 || kind is MetalInt8 || kind is MetalBf16;
            let vulkan = kind is VulkanQ4 || kind is VulkanInt8 || kind is VulkanBf16;
            &&& kind.supported_by(BackendConsumer::Cli)
            &&& kind.supported_by(BackendConsumer::Server) <==> !vulkan
            &&& metal ==> (kind.runs_on(platform) <==> platform is MacOs)
            &&& vulkan ==> (kind.runs_on(platform) <==> platform is Linux)
            &&& !metal && !vulkan ==> kind.runs_on(platform)
            &&& metal ==> kind.requirement() == "requires macOS"@
            &&& vulkan ==> kind.requirement() == "requires Linux"@
            &&& kind.usable(consumer, platform) <==> kind.supported_by(consumer) && kind.runs_on(
                platform,
            )
        }),
{
}

/// Left to choose, a program takes the quantised backend of the graphics interface that
/// it can use, and else that of the processor.
pub proof fn law_auto_prefers_the_graphics_interface()
    ensures
        auto_kind(BackendConsumer::Cli, Platform::MacOs) is MetalQ4,
        auto_kind(BackendConsumer::Server, Platform::MacOs) is MetalQ4,
        auto_kind(BackendConsumer::Cli, Platform::Linux) is VulkanQ4,
        auto_kind(BackendConsumer::Server, Platform::Linux) is Q4,
        auto_kind(BackendConsumer::Cli, Platform::Other) is Q4,
        auto_kind(BackendConsumer::Server, Platform::Other) is Q4,
{
}

proof fn lemma_places_rise(consumer: BackendConsumer, platform: Platform, n: int)
    requires
        0 <= n <= 10,
    ensures
        forall|i: int|
            0 <= i < usable_kinds(consumer, platform, n).len() ==> place_of(
                #[trigger] usable_kinds(consumer, platform, n)[i],
            ) < n,
        forall|i: int, j: int|
            0 <= i < j < usable_kinds(consumer, platform, n).len() ==> place_of(
                #[trigger] usable_kinds(consumer, platform, n)[i],
            ) < place_of(#[trigger] usable_kinds(consumer, platform, n)[j]),
    decreases n,
{
    if n > 0 {
        lemma_places_rise(consumer, platform, n - 1);
        let kind = all_kinds()[n - 1];
        assert(place_of(kind) == n - 1);
        let rest = usable_kinds(consumer, platform, n - 1);
        let all = usable_kinds(consumer, platform, n);
        assert forall|i: int| 0 <= i < all.len() implies place_of(#[trigger] all[i]) < n by {
            if i < rest.len() {
                assert(all[i] == rest[i]);
            }
        }
        assert forall|i: int, j: int| 0 <= i < j < all.len() implies place_of(#[trigger] all[i])
            < place_of(#[trigger] all[j]) by {
            assert(all[i] == rest[i]);
            if j < rest.len() {
                assert(all[j] == rest[j]);
            }
        }
    }
}

/// A list keeps the order of the places, so no backend is in it twice.
pub proof fn law_list_keeps_the_order(
    consumer: BackendConsumer,
    platform: Platform,
    i: int,
    j: int,
)
    requires
        0 <= i < j < listed(consumer, platform).len(),
    ensures
        place_of(listed(consumer, platform)[i]) < place_of(listed(consumer, platform)[j]),
{
    lemma_places_rise(consumer, platform, 10);
}

/// The help names the backend that is chosen by itself, and then every backend on a line
/// of its own, with two spaces before it.
pub proof fn law_help_has_a_line_for_each(
    consumer: BackendConsumer,
    platform: Platform,
    kinds: Seq<BackendKind>,
    kind: BackendKind,
)
    ensures
        help_lines(Seq::<BackendKind>::empty()).len() == 0,
        help_lines(kinds.push(kind)) == help_lines(kinds) + ("  "@ + kind.name_view() + "\n"@),
        help_text(consumer, platform) == "Available backends:\n  auto (=> "@ + auto_kind(
            consumer,
            platform,
        ).name_view() + ")\n"@ + help_lines(listed(consumer, platform)),
{
    assert(kinds.push(kind).drop_last() =~= kinds);
    assert(help_lines(kinds) + "  "@ + kind.name_view() + "\n"@ =~= help_lines(kinds) + ("  "@
        + kind.name_view() + "\n"@));
    reveal_strlit("Available backends:\n");
    reveal_strlit("  auto (=> ");
    reveal_strlit("Available backends:\n  auto (=> ");
    assert("Available backends:\n"@ + "  auto (=> "@ =~= "Available backends:\n  auto (=> "@);
}

/// Options are named one behind the other, with a comma and a space between two. There is
/// always one.
pub proof fn law_options_are_separated_by_commas(
    consumer: BackendConsumer,
    platform: Platform,
    kinds: Seq<BackendKind>,
    kind: BackendKind,
)
    ensures
        comma_separated(seq![kind]) == kind.name_view(),
        kinds.len() > 0 ==> comma_separated(kinds.push(kind)) == comma_separated(kinds) + (", "@
            + kind.name_view()),
        options_text(consumer, platform) == comma_separated(listed(consumer, platform)),
{
    if kinds.len() > 0 {
        assert(kinds.push(kind).drop_last() =~= kinds);
        assert(comma_separated(kinds) + ", "@ + kind.name_view() =~= comma_separated(kinds) + (", "@
            + kind.name_view()));
    }
    law_list_is_exact(consumer, platform, BackendKind::Q4);
    assert(BackendKind::Q4.usable(consumer, platform));
    assert(listed(consumer, platform).contains(BackendKind::Q4));
}

/// What a user is told: which name was asked for, why it is refused, and what there is.
pub proof fn law_refusals_say_why(error: BackendError)
    ensures
        match error {
            BackendError::Unknown { name, options } => error.text() == "Unknown backend: "@ + name@
                + ". Available options on this build: "@ + options@,
            BackendError::NotSupported { name, binary, options } => error.text() == "Backend '"@
                + name@ + "' is not supported by "@ + binary@
                + ". Available options on this build: "@ + options@,
            BackendError::NotAvailable { name, reason, options } => error.text() == "Backend '"@
                + name@ + "' is not available on this build: "@ + reason@
                + ". Available options on this build: "@ + options@,
        },
{
}

/// Only the name auto stands for another.
pub proof fn law_only_auto_is_resolved(
    consumer: BackendConsumer,
    platform: Platform,
    name: Seq<char>,
)
    ensures
        name == "auto"@ ==> resolved_name(consumer, platform, name) == auto_kind(
            consumer,
            platform,
        ).name_view(),
        name != "auto"@ ==> resolved_name(consumer, platform, name) == name,
{
}

} // verus!
