//! Metric extraction that every project gets without configuring it.
//!
//! The contracts speak of models: a configuration with its strings read as
//! text.

use vstd::prelude::*;

verus! {

/// What kind of data a metric is billed as.
#[derive(Debug, Clone, Copy, PartialEq, Eq)]
pub enum DataCategory {
    Transaction,
    Span,
}

/// A condition that holds where the field `name` has the value `value`.
#[derive(Debug, Clone, PartialEq, Eq)]
pub struct EqCondition {
    pub name: String,
    pub value: bool,
}

/// A condition on the fields of an event.
#[derive(Debug, Clone, PartialEq, Eq)]
pub enum RuleCondition {
    Eq(EqCondition),
}

/// The model of a [`RuleCondition`].
pub enum ConditionModel {
    Eq { name: Seq<char>, value: bool },
}

impl RuleCondition {
    pub open spec fn model(&self) -> ConditionModel {
        match self {
            RuleCondition::Eq(eq) => ConditionModel::Eq { name: eq.name@, value: eq.value },
        }
    }
}

/// Configuration for a tag to add to a metric.
#[derive(Debug, Clone, PartialEq, Eq)]
pub struct TagSpec {
    /// The key of the tag to extract.
    pub key: String,
    /// Path to a field containing the tag's value.
    pub field: Option<String>,
    /// Literal value of the tag.
    pub value: Option<String>,
    /// An optional condition to conditionally set the tag.
    pub condition: Option<RuleCondition>,
}

/// The model of a [`TagSpec`].
pub struct TagModel {
    pub key: Seq<char>,
    pub field: Option<Seq<char>>,
    pub value: Option<Seq<char>>,
    pub condition: Option<ConditionModel>,
}

impl TagSpec {
    pub open spec fn model(&self) -> TagModel {
        TagModel {
            key: self.key@,
            field: match self.field {
                Some(field) => Some(field@),
                None => None,
            },
            value: match self.value {
                Some(value) => Some(value@),
                None => None,
            },
            condition: match self.condition {
                Some(condition) => Some(condition.model()),
                None => None,
            },
        }
    }
}

/// The models of `tags`, in their order.
pub open spec fn tag_models(tags: Seq<TagSpec>) -> Seq<TagModel> {
    Seq::new(tags.len(), |i: int| tags[i].model())
}

/// Specification for a metric to extract from some data.
#[derive(Debug, Clone, PartialEq, Eq)]
pub struct MetricSpec {
    /// Category of data to extract this metric for.
    pub category: DataCategory,
    /// The Metric Resource Identifier (MRI) of the metric to extract.
    pub mri: String,
    /// A path to the field to extract the metric from.
    pub field: Option<String>,
    /// An optional condition to meet before extraction.
    pub condition: Option<RuleCondition>,
    /// A list of tags to add to the metric.
    pub tags: Vec<TagSpec>,
}

/// The model of a [`MetricSpec`].
pub struct MetricModel {
    pub category: DataCategory,
    pub mri: Seq<char>,
    pub field: Option<Seq<char>>,
    pub condition: Option<ConditionModel>,
    pub tags: Seq<TagModel>,
}

impl MetricSpec {
    pub open spec fn model(&self) -> MetricModel {
        MetricModel {
            category: self.category,
            mri: self.mri@,
            field: match self.field {
                Some(field) => Some(field@),
                None => None,
            },
            condition: match self.condition {
                Some(condition) => Some(condition.model()),
                None => None,
            },
            tags: tag_models(self.tags@),
        }
    }
}

/// Mapping between extracted metrics and additional tags to extract.
#[derive(Debug, Clone, PartialEq, Eq)]
pub struct TagMapping {
    /// Patterns of the metrics that the tags are added to.
    pub metrics: Vec<String>,
    /// A list of tags to add to the metric.
    pub tags: Vec<TagSpec>,
}

/// The model of a [`TagMapping`].
pub struct MappingModel {
    pub metrics: Seq<Seq<char>>,
    pub tags: Seq<TagModel>,
}

impl TagMapping {
    pub open spec fn model(&self) -> MappingModel {
        MappingModel {
            metrics: Seq::new(self.metrics@.len(), |i: int| self.metrics@[i]@),
            tags: tag_models(self.tags@),
        }
    }
}

/// Configuration for generic extraction of metrics from all data categories.
#[derive(Debug, Clone, PartialEq, Eq)]
pub struct MetricExtractionConfig {
    /// Versioning of metrics extraction. Relay skips extraction if the version is not supported.
    pub version: u16,
    /// A list of metric specifications to extract.
    pub metrics: Vec<MetricSpec>,
    /// A list of tags to add to previously extracted metrics.
    pub tags: Vec<TagMapping>,
    /// Transaction metrics were added to this configuration.
    pub _transaction_metrics_extended: bool,
    /// Span metrics were added to this configuration.
    pub _span_metrics_extended: bool,
}

/// The model of a [`MetricExtractionConfig`].
pub struct ExtractionModel {
    pub version: u16,
    pub metrics: Seq<MetricModel>,
    pub tags: Seq<MappingModel>,
    pub transaction_metrics_extended: bool,
    pub span_metrics_extended: bool,
}

/// The latest version of metric extraction that this library supports.
pub const VERSION: u16 = 1;

impl MetricExtractionConfig {
    pub open spec fn model(&self) -> ExtractionModel {
        ExtractionModel {
            version: self.version,
            metrics: Seq::new(self.metrics@.len(), |i: int| self.metrics@[i].model()),
            tags: Seq::new(self.tags@.len(), |i: int| self.tags@[i].model()),
            transaction_metrics_extended: self._transaction_metrics_extended,
            span_metrics_extended: self._span_metrics_extended,
        }
    }

    /// Returns an empty configuration of the latest version.
    pub fn empty() -> (config: Self)
        ensures
            config.model() == ExtractionModel::empty(),
    {
        let config = Self {
            version: VERSION,
            metrics: Vec::new(),
            tags: Vec::new(),
            _transaction_metrics_extended: false,
            _span_metrics_extended: false,
        };
        assert(config.model().metrics =~= Seq::empty());
        assert(config.model().tags =~= Seq::empty());
        config
    }

    /// Returns `true` if the version of this configuration is supported.
    pub fn is_supported(&self) -> (supported: bool)
        ensures
            supported == self.model().is_supported(),
    {
        self.version <= VERSION
    }
}

/// Features that a project can have switched on.
#[derive(Debug, Clone, Copy, PartialEq, Eq)]
pub enum Feature {
    /// Extract metrics from spans.
    SpanMetricsExtraction,
    /// Any other feature.
    Other,
}

/// The part of a project's configuration that metric extraction reads and
/// fills.
#[derive(Debug, Clone, PartialEq, Eq)]
pub struct ProjectConfig {
    /// The features that are switched on.
    pub features: Vec<Feature>,
    /// Whether the project has a configuration for transaction metrics, and
    /// whether that is valid and enabled.
    pub transaction_metrics: Option<bool>,
    /// Configuration for generic metrics extraction from all data categories.
    pub metric_extraction: Option<MetricExtractionConfig>,
}

/// The model of a [`ProjectConfig`].
pub struct ProjectModel {
    pub features: Seq<Feature>,
    pub transaction_metrics: Option<bool>,
    pub metric_extraction: Option<ExtractionModel>,
}

impl ProjectConfig {
    pub open spec fn model(&self) -> ProjectModel {
        ProjectModel {
            features: self.features@,
            transaction_metrics: self.transaction_metrics,
            metric_extraction: match self.metric_extraction {
                Some(config) => Some(config.model()),
                None => None,
            },
        }
    }

    /// Returns whether span metrics extraction is switched on.
    fn has_span_metrics(&self) -> (has: bool)
        ensures
            has == self.model().has_span_metrics(),
    {
        let mut i: usize = 0;
        while i < self.features.len()
            invariant
                i <= self.features@.len(),
                forall|j: int| 0 <= j < i ==> self.features@[j] != Feature::SpanMetricsExtraction,
            decreases self.features@.len() - i,
        {
            match self.features[i] {
                Feature::SpanMetricsExtraction => {
                    return true;
                },
                Feature::Other => {},
            }
            i += 1;
        }
        false
    }
}

impl ExtractionModel {
    /// The empty configuration of the latest version.
    pub open spec fn empty() -> ExtractionModel {
        ExtractionModel {
            version: VERSION,
            metrics: Seq::empty(),
            tags: Seq::empty(),
            transaction_metrics_extended: false,
            span_metrics_extended: false,
        }
    }

    /// The version is one that this library knows.
    pub open spec fn is_supported(self) -> bool {
        self.version <= VERSION
    }

    /// The version that the configuration has once defaults are added: the
    /// latest where it had none.
    pub open spec fn settled_version(self) -> u16 {
        if self.version == 0 {
            VERSION
        } else {
            self.version
        }
    }

    /// This configuration with the defaults for transaction metrics.
    pub open spec fn with_transaction_metrics(self) -> ExtractionModel {
        ExtractionModel {
            version: self.settled_version(),
            tags: self.tags.push(
                MappingModel { metrics: seq![Seq::<char>::empty()], tags: Seq::empty() },
            ),
            transaction_metrics_extended: true,
            ..self
        }
    }

    /// This configuration with the defaults for span metrics, unless it has
    /// them or has a version that is not supported.
    pub open spec fn with_span_metrics(self) -> ExtractionModel {
        if !self.is_supported() || self.span_metrics_extended {
            self
        } else {
            ExtractionModel {
                version: self.settled_version(),
                metrics: self.metrics + span_metrics(),
                tags: self.tags + span_tag_mappings(),
                span_metrics_extended: true,
                ..self
            }
        }
    }
}

/// The model of a tag that takes its value from `field`.
pub open spec fn field_tag(key: Seq<char>, field: Seq<char>) -> TagModel {
    TagModel { key, field: Some(field), value: None, condition: None }
}

/// `text` with a backslash in front of every dot.
pub open spec fn escape_dots(text: Seq<char>) -> Seq<char>
    decreases text.len(),
{
    if text.len() == 0 {
        text
    } else if text.last() == '.' {
        escape_dots(text.drop_last()).push('\\').push('.')
    } else {
        escape_dots(text.drop_last()).push(text.last())
    }
}

/// The model of a tag that mobile spans take from their data under `key`.
pub open spec fn mobile_tag(key: Seq<char>) -> TagModel {
    TagModel {
        key,
        field: Some("span.data."@ + escape_dots(key)),
        value: None,
        condition: Some(ConditionModel::Eq { name: "span.data.mobile"@, value: true }),
    }
}

/// The metrics that are extracted from spans.
pub open spec fn span_metrics() -> Seq<MetricModel> {
    seq![
        MetricModel {
            category: DataCategory::Span,
            mri: "d:spans/exclusive_time@millisecond"@,
            field: Some("span.exclusive_time"@),
            condition: None,
            tags: seq![field_tag("transaction"@, "span.data.transaction"@)],
        },
        MetricModel {
            category: DataCategory::Span,
            mri: "d:spans/exclusive_time_light@millisecond"@,
            field: Some("span.exclusive_time"@),
            condition: None,
            tags: Seq::empty(),
        },
    ]
}

/// The tags that every span metric gets.
pub open spec fn span_tags() -> Seq<TagModel> {
    seq![
        field_tag("environment"@, "span.data.environment"@),
        field_tag("http.status_code"@, "span.data.http\\.status_code"@),
        field_tag("span.action"@, "span.data.span\\.action"@),
        field_tag("span.category"@, "span.data.span\\.category"@),
        field_tag("span.description"@, "span.data.span\\.description"@),
        field_tag("span.domain"@, "span.data.span\\.domain"@),
        field_tag("span.group"@, "span.data.span\\.group"@),
        field_tag("span.module"@, "span.data.span\\.module"@),
        field_tag("span.op"@, "span.data.span\\.op"@),
        field_tag("span.status_code"@, "span.data.span\\.status_code"@),
        field_tag("span.status"@, "span.data.span\\.status"@),
        field_tag("span.system"@, "span.data.span\\.system"@),
        field_tag("transaction.method"@, "span.data.transaction\\.method"@),
        field_tag("transaction.op"@, "span.data.transaction\\.op"@),
    ]
}

/// The tags that are added to the metrics of spans.
pub open spec fn span_tag_mappings() -> Seq<MappingModel> {
    seq![
        MappingModel { metrics: seq!["d:spans/exclusive_time*@millisecond"@], tags: span_tags() },
        MappingModel {
            metrics: seq!["d:spans/exclusive_time*@millisecond"@],
            tags: seq![mobile_tag("release"@), mobile_tag("device.class"@)],
        },
    ]
}

impl ProjectModel {
    /// Span metrics extraction is among the features that are switched on.
    pub open spec fn has_span_metrics(self) -> bool {
        self.features.contains(Feature::SpanMetricsExtraction)
    }

    /// This project with the defaults for transaction metrics, where it has
    /// transaction metrics enabled.
    pub open spec fn with_transaction_metrics(self) -> ProjectModel {
        if self.transaction_metrics == Some(true) {
            ProjectModel {
                metric_extraction: Some(
                    match self.metric_extraction {
                        Some(config) => config,
                        None => ExtractionModel::empty(),
                    }.with_transaction_metrics(),
                ),
                ..self
            }
        } else {
            self
        }
    }

    /// This project with the defaults for span metrics, where it has the
    /// feature switched on.
    pub open spec fn with_span_metrics(self) -> ProjectModel {
        if self.has_span_metrics() {
            ProjectModel {
                metric_extraction: Some(
                    match self.metric_extraction {
                        Some(config) => config,
                        None => ExtractionModel::empty(),
                    }.with_span_metrics(),
                ),
                ..self
            }
        } else {
            self
        }
    }
}

/// Returns a tag that takes its value from `field`.
fn tag_from_field(key: &str, field: &str) -> (tag: TagSpec)
    ensures
        tag.model() == field_tag(key@, field@),
{
    TagSpec {
        key: String::from_str(key),
        field: Some(String::from_str(field)),
        value: None,
        condition: None,
    }
}

/// Returns `text` with a backslash in front of every dot.
pub fn escaped(text: &str) -> (escaped: String)
    ensures
        escaped@ == escape_dots(text@),
{
    let length = text.unicode_len();
    let mut escaped = String::new();
    let mut i: usize = 0;
    assert(text@.take(0) =~= Seq::<char>::empty());
    while i < length
        invariant
            length == text@.len(),
            i <= length,
            escaped@ == escape_dots(text@.take(i as int)),
        decreases length - i,
    {
        let ghost so_far = escaped@;
        proof {
            assert(text@.take(i + 1).drop_last() =~= text@.take(i as int));
            reveal_strlit("\\.");
        }
        if text.get_char(i) == '.' {
            escaped.append("\\.");
            assert(escaped@ =~= so_far.push('\\').push('.'));
        } else {
            let character = text.substring_char(i, i + 1);
            escaped.append(character);
            assert(escaped@ =~= so_far.push(text@[i as int]));
        }
        i += 1;
    }
    assert(text@.take(length as int) =~= text@);
    escaped
}

/// Returns a tag that mobile spans take from their data under `key`.
fn tag_of_mobile_span(key: &str) -> (tag: TagSpec)
    ensures
        tag.model() == mobile_tag(key@),
{
    let mut field = String::from_str("span.data.");
    field.append(escaped(key).as_str());
    TagSpec {
        key: String::from_str(key),
        field: Some(field),
        value: None,
        condition: Some(
            RuleCondition::Eq(EqCondition { name: String::from_str("span.data.mobile"), value: true }),
        ),
    }
}

/// Returns the tags that every span metric gets.
fn tags_of_spans() -> (tags: Vec<TagSpec>)
    ensures
        tag_models(tags@) == span_tags(),
{
    let mut tags: Vec<TagSpec> = Vec::new();
    tags.push(tag_from_field("environment", "span.data.environment"));
    tags.push(tag_from_field("http.status_code", "span.data.http\\.status_code"));
    tags.push(tag_from_field("span.action", "span.data.span\\.action"));
    tags.push(tag_from_field("span.category", "span.data.span\\.category"));
    tags.push(tag_from_field("span.description", "span.data.span\\.description"));
    tags.push(tag_from_field("span.domain", "span.data.span\\.domain"));
    tags.push(tag_from_field("span.group", "span.data.span\\.group"));
    tags.push(tag_from_field("span.module", "span.data.span\\.module"));
    tags.push(tag_from_field("span.op", "span.data.span\\.op"));
    tags.push(tag_from_field("span.status_code", "span.data.span\\.status_code"));
    tags.push(tag_from_field("span.status", "span.data.span\\.status"));
    tags.push(tag_from_field("span.system", "span.data.span\\.system"));
    tags.push(tag_from_field("transaction.method", "span.data.transaction\\.method"));
    tags.push(tag_from_field("transaction.op", "span.data.transaction\\.op"));
    assert(tag_models(tags@) =~= span_tags());
    tags
}

/// Adds the defaults for transaction metrics to the project, where it has
/// transaction metrics enabled. Elsewhere the project stays as it is. The
/// features and the setting for transaction metrics stay in either case.
pub fn add_transaction_metrics(project_config: &mut ProjectConfig)
    ensures
        final(project_config).model() == old(project_config).model().with_transaction_metrics(),
        final(project_config).features == old(project_config).features,
        final(project_config).transaction_metrics == old(project_config).transaction_metrics,
        old(project_config).transaction_metrics != Some(true)
            ==> *final(project_config) == *old(project_config),
{
    match project_config.transaction_metrics {
        Some(true) => {},
        _ => {
            return ;
        },
    }
    let mut config = match project_config.metric_extraction.take() {
        Some(config) => config,
        None => MetricExtractionConfig::empty(),
    };
    let ghost before = config.model();

    config._transaction_metrics_extended = true;
    if config.version == 0 {
        config.version = VERSION;
    }
    let mut metrics: Vec<String> = Vec::new();
    metrics.push(String::new());
    let mapping = TagMapping { metrics, tags: Vec::new() };
    proof {
        assert(mapping.model().metrics =~= seq![Seq::<char>::empty()]);
        assert(mapping.model().tags =~= Seq::empty());
    }
    config.tags.push(mapping);
    proof {
        assert(config.model().tags =~= before.tags.push(mapping.model()));
        assert(config.model().metrics =~= before.metrics);
    }
    project_config.metric_extraction = Some(config);
}

/// Adds configuration for extracting metrics from spans.
///
/// This configuration is temporarily hard-coded here. It will later be provided by the upstream.
/// This requires the `SpanMetricsExtraction` feature. This feature should be set to `false` if the
/// default should no longer be placed.
///
/// Where the feature is off the project stays as it is. So it does where
/// it has a configuration that already holds the span metrics, or one of a
/// version that is not supported. The features and the setting for
/// transaction metrics stay in every case.
pub fn add_span_metrics(project_config: &mut ProjectConfig)
    ensures
        final(project_config).model() == old(project_config).model().with_span_metrics(),
        final(project_config).features == old(project_config).features,
        final(project_config).transaction_metrics == old(project_config).transaction_metrics,
        !old(project_config).model().has_span_metrics()
            ==> *final(project_config) == *old(project_config),
        old(project_config).metric_extraction matches Some(config) && (!config.model().is_supported()
            || config._span_metrics_extended) ==> *final(project_config) == *old(project_config),
{
    if !project_config.has_span_metrics() {
        return ;
    }
    let mut config = match project_config.metric_extraction.take() {
        Some(config) => config,
        None => MetricExtractionConfig::empty(),
    };
    let ghost before = config.model();

    if !config.is_supported() || config._span_metrics_extended {
        project_config.metric_extraction = Some(config);
        return ;
    }
    let mut transaction_tags: Vec<TagSpec> = Vec::new();
    transaction_tags.push(tag_from_field("transaction", "span.data.transaction"));
    let first = MetricSpec {
        category: DataCategory::Span,
        mri: String::from_str("d:spans/exclusive_time@millisecond"),
        field: Some(String::from_str("span.exclusive_time")),
        condition: None,
        tags: transaction_tags,
    };
    let second = MetricSpec {
        category: DataCategory::Span,
        mri: String::from_str("d:spans/exclusive_time_light@millisecond"),
        field: Some(String::from_str("span.exclusive_time")),
        condition: None,
        tags: Vec::new(),
    };
    proof {
        assert(first.model().tags =~= seq![field_tag("transaction"@, "span.data.transaction"@)]);
        assert(second.model().tags =~= Seq::empty());
    }
    config.metrics.push(first);
    config.metrics.push(second);
    proof {
        assert(config.model().metrics =~= before.metrics + span_metrics());
    }

    let mut all_spans: Vec<String> = Vec::new();
    all_spans.push(String::from_str("d:spans/exclusive_time*@millisecond"));
    let every = TagMapping { metrics: all_spans, tags: tags_of_spans() };
    let mut mobile_spans: Vec<String> = Vec::new();
    mobile_spans.push(String::from_str("d:spans/exclusive_time*@millisecond"));
    let mut mobile_tags: Vec<TagSpec> = Vec::new();
    mobile_tags.push(tag_of_mobile_span("release"));
    mobile_tags.push(tag_of_mobile_span("device.class"));
    let mobile = TagMapping { metrics: mobile_spans, tags: mobile_tags };
    proof {
        assert(every.model().metrics =~= seq!["d:spans/exclusive_time*@millisecond"@]);
        assert(mobile.model().metrics =~= seq!["d:spans/exclusive_time*@millisecond"@]);
        assert(mobile.model().tags =~= seq![mobile_tag("release"@), mobile_tag("device.class"@)]);
    }
    config.tags.push(every);
    config.tags.push(mobile);
    proof {
        assert(config.model().tags =~= before.tags + span_tag_mappings());
    }

    config._span_metrics_extended = true;
    if config.version == 0 {
        config.version = VERSION;
    }
    project_config.metric_extraction = Some(config);
}

} // verus!
