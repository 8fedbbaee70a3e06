//! The AWS service tool: operation classification, endpoint resolution,
//! service target prefixes, input validation and the formatting of results.

use vstd::prelude::*;
use vstd::string::*;
use vstd::hash_map::StringHashMap;
use core::time::Duration;
use crate::text::{
    concat_str, decimal, trim_start_matches_spec, has_prefix, lines, pad_right_spec, push_decimal, push_pad_right, push_repeat,
    repeat_spec, starts_with, views,
};
use crate::tools::header::{
    concat_rows, find_value, first_value, framed, header_content, header_fields, header_offset_ok,
    header_text, law_header_read_back, lemma_concat_rows_step, pair_views, parse_header,
    single_line, str_equal, writable_field,
};

verus! {

/// The operation name prefixes that mark a potentially mutative operation.
pub open spec fn mutative_prefixes() -> Seq<Seq<char>> {
    seq![
        "Create"@, "Put"@, "Delete"@, "Update"@, "Terminate"@, "Revoke"@, "Disable"@,
        "Deregister"@, "Stop"@, "Add"@, "Modify"@, "Remove"@, "Attach"@, "Detach"@, "Start"@,
        "Enable"@, "Register"@, "Set"@, "Associate"@, "Disassociate"@, "Allocate"@, "Release"@,
        "Cancel"@, "Reboot"@, "Accept"@,
    ]
}

/// Whether an operation name begins with a mutative prefix.
pub open spec fn spec_is_mutative(op: Seq<char>) -> bool {
    exists|i: int| 0 <= i < mutative_prefixes().len() && has_prefix(op, #[trigger] mutative_prefixes()[i])
}

/// The operation name prefixes that mark a potentially mutative operation.
pub fn mutative_operations() -> (v: Vec<&'static str>)
    ensures
        views(v@) == mutative_prefixes(),
{
    let v = vec![
        "Create", "Put", "Delete", "Update", "Terminate", "Revoke", "Disable", "Deregister", "Stop",
        "Add", "Modify", "Remove", "Attach", "Detach", "Start", "Enable", "Register", "Set",
        "Associate", "Disassociate", "Allocate", "Release", "Cancel", "Reboot", "Accept",
    ];
    assert(views(v@) =~= mutative_prefixes());
    v
}

/// Check if an operation is potentially mutative (destructive): whether its
/// name begins with one of the mutative prefixes.
pub fn is_mutative_operation(operation_name: &str) -> (b: bool)
    ensures
        b == spec_is_mutative(operation_name@),
{
    let prefixes = mutative_operations();
    let mut i: usize = 0;
    while i < prefixes.len()
        invariant
            views(prefixes@) == mutative_prefixes(),
            i <= prefixes@.len(),
            forall|j: int| 0 <= j < i ==> !has_prefix(operation_name@, #[trigger] mutative_prefixes()[j]),
        decreases prefixes@.len() - i,
    {
        assert(views(prefixes@)[i as int] == prefixes@[i as int]@);
        if starts_with(operation_name, prefixes[i]) {
            return true;
        }
        i = i + 1;
    }
    false
}

/// The endpoint URL of a service in a region.
pub open spec fn spec_endpoint(service: Seq<char>, region: Seq<char>) -> Seq<char> {
    if service == "iam"@ {
        "https://iam.amazonaws.com"@
    } else if service == "sts"@ && region == "us-east-1"@ {
        "https://sts.amazonaws.com"@
    } else if service == "sts"@ {
        "https://sts."@ + region + ".amazonaws.com"@
    } else if service == "route53"@ || service == "cloudfront"@ {
        "https://"@ + service + ".amazonaws.com"@
    } else if service == "s3"@ {
        "https://s3."@ + region + ".amazonaws.com"@
    } else {
        "https://"@ + service + "."@ + region + ".amazonaws.com"@
    }
}

/// Get the AWS endpoint URL for a service and region: global endpoints for
/// IAM, Route 53, CloudFront and STS in us-east-1, regional ones otherwise.
pub fn get_endpoint(service_name: &str, region: &str) -> (r: String)
    ensures
        r@ == spec_endpoint(service_name@, region@),
{
    if str_equal(service_name, "iam") {
        "https://iam.amazonaws.com".to_string()
    } else if str_equal(service_name, "sts") && str_equal(region, "us-east-1") {
        "https://sts.amazonaws.com".to_string()
    } else if str_equal(service_name, "sts") {
        let mut s = concat_str("https://sts.", region);
        s.append(".amazonaws.com");
        s
    } else if str_equal(service_name, "route53") || str_equal(service_name, "cloudfront") {
        let mut s = concat_str("https://", service_name);
        s.append(".amazonaws.com");
        s
    } else if str_equal(service_name, "s3") {
        let mut s = concat_str("https://s3.", region);
        s.append(".amazonaws.com");
        s
    } else {
        let mut s = concat_str("https://", service_name);
        s.append(".");
        s.append(region);
        s.append(".amazonaws.com");
        s
    }
}

/// Global services are reached at one endpoint for every region: IAM,
/// Route 53 and CloudFront at `https://{service}.amazonaws.com`, and STS
/// there in `us-east-1`. Every other service, STS outside `us-east-1`
/// and S3 among them, is reached at `https://{service}.{region}.amazonaws.com`.
pub proof fn law_endpoints(service: Seq<char>, region: Seq<char>, other_region: Seq<char>)
    ensures
        (service == "iam"@ || service == "route53"@ || service == "cloudfront"@) ==> {
            &&& spec_endpoint(service, region) == "https://"@ + service + ".amazonaws.com"@
            &&& spec_endpoint(service, region) == spec_endpoint(service, other_region)
        },
        service == "sts"@ && region == "us-east-1"@ ==> spec_endpoint(service, region) == "https://sts.amazonaws.com"@,
        !(service == "iam"@ || service == "route53"@ || service == "cloudfront"@) && !(service == "sts"@ && region
            == "us-east-1"@) ==> spec_endpoint(service, region) == "https://"@ + service + "."@ + region
            + ".amazonaws.com"@,
{
    reveal_strlit("iam");
    reveal_strlit("route53");
    reveal_strlit("cloudfront");
    reveal_strlit("sts");
    reveal_strlit("s3");
    reveal_strlit("us-east-1");
    reveal_strlit("https://");
    reveal_strlit(".amazonaws.com");
    reveal_strlit("https://iam.amazonaws.com");
    reveal_strlit("https://sts.amazonaws.com");
    reveal_strlit("https://sts.");
    reveal_strlit("https://s3.");
    reveal_strlit(".");
    if service == "iam"@ {
        assert("https://iam.amazonaws.com"@ =~= "https://"@ + service + ".amazonaws.com"@);
    }
    if service == "sts"@ && region != "us-east-1"@ {
        assert("https://sts."@ + region + ".amazonaws.com"@ =~= "https://"@ + service + "."@ + region
            + ".amazonaws.com"@);
    }
    if service == "s3"@ {
        assert("https://s3."@ + region + ".amazonaws.com"@ =~= "https://"@ + service + "."@ + region
            + ".amazonaws.com"@);
    }
}

/// A map from service names to `x-amz-target` prefixes.
pub struct ServiceTargets {
    map: StringHashMap<String>,
}

impl View for ServiceTargets {
    type V = Map<Seq<char>, Seq<char>>;

    closed spec fn view(&self) -> Map<Seq<char>, Seq<char>> {
        self.map@.map_values(|v: String| v@)
    }
}

impl ServiceTargets {
    /// An empty map.
    pub fn new() -> (t: Self)
        ensures
            t@ == Map::<Seq<char>, Seq<char>>::empty(),
    {
        let t = ServiceTargets { map: StringHashMap::new() };
        assert(t@ =~= Map::<Seq<char>, Seq<char>>::empty());
        t
    }

    /// Whether no service has a prefix.
    pub fn is_empty(&self) -> (b: bool)
        ensures
            b <==> self@ == Map::<Seq<char>, Seq<char>>::empty(),
    {
        let b = self.map.is_empty();
        if b {
            assert(self@ =~= Map::<Seq<char>, Seq<char>>::empty());
        } else {
            proof {
                let k = choose|k: Seq<char>| self.map@.dom().contains(k);
                assert(self@.contains_key(k));
            }
        }
        b
    }

    /// The prefix of a service, if it has one.
    pub fn get(&self, name: &str) -> (r: Option<&String>)
        ensures
            r is Some <==> self@.contains_key(name@),
            r matches Some(v) ==> v@ == self@[name@],
    {
        self.map.get(name)
    }

    /// Set the prefix of a service, replacing any earlier one.
    pub fn insert(&mut self, name: String, target: String)
        ensures
            final(self)@ == old(self)@.insert(name@, target@),
    {
        self.map.insert(name, target);
        assert(self@ =~= old(self)@.insert(name@, target@));
    }

    /// Set the prefixes of `other` over these, replacing earlier ones.
    pub fn extend(&mut self, other: ServiceTargets)
        ensures
            final(self)@ == old(self)@.union_prefer_right(other@),
    {
        let ghost ov = other@;
        self.map.union_prefer_right(other.map);
        assert(self@ =~= old(self)@.union_prefer_right(ov));
    }
}

/// The default `x-amz-target` prefixes of the JSON-protocol services.
pub open spec fn default_targets() -> Map<Seq<char>, Seq<char>> {
    Map::<Seq<char>, Seq<char>>::empty()
        .insert("dynamodb"@, "DynamoDB_20120810"@)
        .insert("kinesis"@, "Kinesis_20131202"@)
        .insert("logs"@, "Logs_20140328"@)
        .insert("events"@, "AWSEvents"@)
        .insert("lambda"@, "AWSLambda"@)
        .insert("sts"@, "AWSSecurityTokenServiceV20110615"@)
        .insert("sqs"@, "AmazonSQS"@)
        .insert("sns"@, "AmazonSimpleNotificationService"@)
        .insert("secretsmanager"@, "secretsmanager"@)
        .insert("ssm"@, "AmazonSSM"@)
        .insert("kms"@, "TrentService"@)
        .insert("iam"@, "IAMService"@)
        .insert("cognito-idp"@, "AWSCognitoIdentityProviderService"@)
        .insert("cognito-identity"@, "AWSCognitoIdentityService"@)
        .insert("cloudwatch"@, "GraniteServiceVersion20100801"@)
        .insert("application-autoscaling"@, "AnyScaleFrontendService"@)
        .insert("elasticache"@, "AmazonElastiCacheV9"@)
        .insert("ecr"@, "AmazonEC2ContainerRegistry_V20150921"@)
        .insert("ecs"@, "AmazonEC2ContainerServiceV20141113"@)
        .insert("cloudformation"@, "CloudFormation"@)
        .insert("codepipeline"@, "CodePipeline_20150709"@)
        .insert("codebuild"@, "CodeBuild_20161006"@)
        .insert("codecommit"@, "CodeCommit_20150413"@)
        .insert("codedeploy"@, "CodeDeploy_20141006"@)
        .insert("stepfunctions"@, "AWSStepFunctions"@)
        .insert("glue"@, "AWSGlue"@)
        .insert("athena"@, "AmazonAthena"@)
        .insert("redshift-data"@, "RedshiftData"@)
        .insert("bedrock"@, "AmazonBedrock"@)
        .insert("bedrock-runtime"@, "AmazonBedrockRuntime"@)
        .insert("sagemaker"@, "SageMaker"@)
        .insert("rekognition"@, "RekognitionService"@)
        .insert("textract"@, "Textract"@)
        .insert("comprehend"@, "Comprehend_20171127"@)
        .insert("translate"@, "AWSShineFrontendService_20170701"@)
        .insert("polly"@, "Parrot_v1"@)
        .insert("transcribe"@, "Transcribe"@)
}

/// Default service target prefixes for the x-amz-target header.
pub fn default_service_targets() -> (t: ServiceTargets)
    ensures
        t@ == default_targets(),
{
    let mut t = ServiceTargets::new();
    t.insert("dynamodb".to_string(), "DynamoDB_20120810".to_string());
    t.insert("kinesis".to_string(), "Kinesis_20131202".to_string());
    t.insert("logs".to_string(), "Logs_20140328".to_string());
    t.insert("events".to_string(), "AWSEvents".to_string());
    t.insert("lambda".to_string(), "AWSLambda".to_string());
    t.insert("sts".to_string(), "AWSSecurityTokenServiceV20110615".to_string());
    t.insert("sqs".to_string(), "AmazonSQS".to_string());
    t.insert("sns".to_string(), "AmazonSimpleNotificationService".to_string());
    t.insert("secretsmanager".to_string(), "secretsmanager".to_string());
    t.insert("ssm".to_string(), "AmazonSSM".to_string());
    t.insert("kms".to_string(), "TrentService".to_string());
    t.insert("iam".to_string(), "IAMService".to_string());
    t.insert("cognito-idp".to_string(), "AWSCognitoIdentityProviderService".to_string());
    t.insert("cognito-identity".to_string(), "AWSCognitoIdentityService".to_string());
    t.insert("cloudwatch".to_string(), "GraniteServiceVersion20100801".to_string());
    t.insert("application-autoscaling".to_string(), "AnyScaleFrontendService".to_string());
    t.insert("elasticache".to_string(), "AmazonElastiCacheV9".to_string());
    t.insert("ecr".to_string(), "AmazonEC2ContainerRegistry_V20150921".to_string());
    t.insert("ecs".to_string(), "AmazonEC2ContainerServiceV20141113".to_string());
    t.insert("cloudformation".to_string(), "CloudFormation".to_string());
    t.insert("codepipeline".to_string(), "CodePipeline_20150709".to_string());
    t.insert("codebuild".to_string(), "CodeBuild_20161006".to_string());
    t.insert("codecommit".to_string(), "CodeCommit_20150413".to_string());
    t.insert("codedeploy".to_string(), "CodeDeploy_20141006".to_string());
    t.insert("stepfunctions".to_string(), "AWSStepFunctions".to_string());
    t.insert("glue".to_string(), "AWSGlue".to_string());
    t.insert("athena".to_string(), "AmazonAthena".to_string());
    t.insert("redshift-data".to_string(), "RedshiftData".to_string());
    t.insert("bedrock".to_string(), "AmazonBedrock".to_string());
    t.insert("bedrock-runtime".to_string(), "AmazonBedrockRuntime".to_string());
    t.insert("sagemaker".to_string(), "SageMaker".to_string());
    t.insert("rekognition".to_string(), "RekognitionService".to_string());
    t.insert("textract".to_string(), "Textract".to_string());
    t.insert("comprehend".to_string(), "Comprehend_20171127".to_string());
    t.insert("translate".to_string(), "AWSShineFrontendService_20170701".to_string());
    t.insert("polly".to_string(), "Parrot_v1".to_string());
    t.insert("transcribe".to_string(), "Transcribe".to_string());
    t
}

/// The `x-amz-target` prefix of a service: its configured prefix, or the
/// service name itself.
pub open spec fn spec_service_target(targets: Map<Seq<char>, Seq<char>>, service: Seq<char>) -> Seq<char> {
    if targets.contains_key(service) {
        targets[service]
    } else {
        service
    }
}

/// Get the service target prefix for a service.
pub fn get_service_target(targets: &ServiceTargets, service_name: &str) -> (r: String)
    ensures
        r@ == spec_service_target(targets@, service_name@),
{
    match targets.get(service_name) {
        Some(t) => t.clone(),
        None => service_name.to_string(),
    }
}

/// The `x-amz-target` header of an operation: `{prefix}.{operation}`.
pub fn target_header(targets: &ServiceTargets, service_name: &str, operation_name: &str) -> (r: String)
    ensures
        r@ == spec_service_target(targets@, service_name@) + "."@ + operation_name@,
{
    let mut s = get_service_target(targets, service_name);
    s.append(".");
    s.append(operation_name);
    s
}

/// The default targets with the custom ones set over them, in order.
pub open spec fn merged_targets(custom: Seq<(Seq<char>, Seq<char>)>) -> Map<Seq<char>, Seq<char>>
    decreases custom.len(),
{
    if custom.len() == 0 {
        default_targets()
    } else {
        merged_targets(custom.drop_last()).insert(custom.last().0, custom.last().1)
    }
}

/// The service targets a built tool uses: the defaults, overridden by the
/// custom targets given to the builder, in the order given.
pub fn merge_service_targets(custom: Vec<(String, String)>) -> (t: ServiceTargets)
    ensures
        t@ == merged_targets(custom@.map_values(|p: (String, String)| (p.0@, p.1@))),
{
    let ghost cv = custom@.map_values(|p: (String, String)| (p.0@, p.1@));
    let mut t = default_service_targets();
    let mut i: usize = 0;
    assert(cv.take(0) =~= Seq::<(Seq<char>, Seq<char>)>::empty());
    while i < custom.len()
        invariant
            i <= custom@.len(),
            cv == custom@.map_values(|p: (String, String)| (p.0@, p.1@)),
            t@ == merged_targets(cv.take(i as int)),
        decreases custom@.len() - i,
    {
        let k = custom[i].0.clone();
        let v = custom[i].1.clone();
        proof {
            assert(cv.take(i + 1).drop_last() =~= cv.take(i as int));
            assert(cv.take(i + 1).last() == cv[i as int]);
        }
        t.insert(k, v);
        i = i + 1;
    }
    assert(cv.take(custom@.len() as int) =~= cv);
    t
}

/// Parse output header into metadata fields and content.
pub fn parse_output_header<'a>(output: &'a str) -> (r: (Vec<(&'a str, &'a str)>, &'a str))
    requires
        header_offset_ok(output@),
    ensures
        pair_views(r.0@) == header_fields(lines(output@)),
        r.1@ == header_content(output@),
{
    parse_header(output)
}

/// The plain-text icon of a result field.
pub open spec fn plain_icon(key: Seq<char>) -> Seq<char> {
    if key == "Service"@ {
        "[S]"@
    } else if key == "Operation"@ {
        "[O]"@
    } else if key == "Region"@ {
        "[R]"@
    } else if key == "Label"@ {
        "[L]"@
    } else if key == "Warning"@ {
        "[!]"@
    } else {
        "   "@
    }
}

fn plain_icon_of(key: &str) -> (r: &'static str)
    ensures
        r@ == plain_icon(key@),
{
    if str_equal(key, "Service") {
        "[S]"
    } else if str_equal(key, "Operation") {
        "[O]"
    } else if str_equal(key, "Region") {
        "[R]"
    } else if str_equal(key, "Label") {
        "[L]"
    } else if str_equal(key, "Warning") {
        "[!]"
    } else {
        "   "
    }
}

/// The ANSI color of a result field.
pub open spec fn ansi_color(key: Seq<char>) -> Seq<char> {
    if key == "Service"@ {
        "\x1b[33m"@
    } else if key == "Operation"@ {
        "\x1b[34m"@
    } else if key == "Region"@ {
        "\x1b[36m"@
    } else if key == "Label"@ {
        "\x1b[32m"@
    } else if key == "Warning"@ {
        "\x1b[31m"@
    } else {
        "\x1b[0m"@
    }
}

/// The ANSI icon of a result field: its color, reset; two spaces for
/// other fields.
pub open spec fn ansi_icon(key: Seq<char>) -> Seq<char> {
    if key == "Service"@ || key == "Operation"@ || key == "Region"@ || key == "Label"@ || key == "Warning"@ {
        ansi_color(key) + "\x1b[0m"@
    } else {
        "  "@
    }
}

fn ansi_style_of(key: &str) -> (r: (&'static str, &'static str))
    ensures
        r.0@ == ansi_icon(key@),
        r.1@ == ansi_color(key@),
{
    proof {
        reveal_strlit("\x1b[0m");
        reveal_strlit("\x1b[33m");
        reveal_strlit("\x1b[34m");
        reveal_strlit("\x1b[36m");
        reveal_strlit("\x1b[32m");
        reveal_strlit("\x1b[31m");
        reveal_strlit("\x1b[33m\x1b[0m");
        reveal_strlit("\x1b[34m\x1b[0m");
        reveal_strlit("\x1b[36m\x1b[0m");
        reveal_strlit("\x1b[32m\x1b[0m");
        reveal_strlit("\x1b[31m\x1b[0m");
    }
    if str_equal(key, "Service") {
        ("\x1b[33m\x1b[0m", "\x1b[33m")
    } else if str_equal(key, "Operation") {
        ("\x1b[34m\x1b[0m", "\x1b[34m")
    } else if str_equal(key, "Region") {
        ("\x1b[36m\x1b[0m", "\x1b[36m")
    } else if str_equal(key, "Label") {
        ("\x1b[32m\x1b[0m", "\x1b[32m")
    } else if str_equal(key, "Warning") {
        ("\x1b[31m\x1b[0m", "\x1b[31m")
    } else {
        ("  ", "\x1b[0m")
    }
}

/// The plain row of a field: icon, key padded to 12, value.
pub open spec fn plain_row(key: Seq<char>, value: Seq<char>) -> Seq<char> {
    plain_icon(key) + " "@ + pad_right_spec(key, 12) + " "@ + value + "\n"@
}

/// The ANSI row of a field.
pub open spec fn ansi_row(key: Seq<char>, value: Seq<char>) -> Seq<char> {
    ansi_icon(key) + " \x1b[2m"@ + pad_right_spec(key, 12) + "\x1b[0m "@ + ansi_color(key) + value + "\x1b[0m\n"@
}

/// The Markdown row of a field; the label is shown as the heading instead.
pub open spec fn markdown_row(key: Seq<char>, value: Seq<char>) -> Seq<char> {
    if key != "Label"@ {
        "- **"@ + key + "**: "@ + value + "\n"@
    } else {
        seq![]
    }
}

/// The plain-text rendering of a result.
pub open spec fn spec_format_plain(output: Seq<char>) -> Seq<char> {
    let fields = header_fields(lines(output));
    if fields.len() == 0 {
        output
    } else {
        repeat_spec("─"@, 60) + "\n"@ + concat_rows(fields, |k: Seq<char>, v: Seq<char>| plain_row(k, v))
            + repeat_spec("─"@, 60) + "\n\n"@ + header_content(output)
    }
}

/// The ANSI rendering of a result.
pub open spec fn spec_format_ansi(output: Seq<char>) -> Seq<char> {
    let fields = header_fields(lines(output));
    if fields.len() == 0 {
        output
    } else {
        "\x1b[2m"@ + repeat_spec("─"@, 60) + "\x1b[0m\n"@ + concat_rows(
            fields,
            |k: Seq<char>, v: Seq<char>| ansi_row(k, v),
        ) + "\x1b[2m"@ + repeat_spec("─"@, 60) + "\x1b[0m\n\n"@ + header_content(output)
    }
}

/// The Markdown rendering of a result: the label as a heading, the other
/// fields as a list, then the response as a JSON block.
pub open spec fn spec_format_markdown(output: Seq<char>) -> Seq<char> {
    let fields = header_fields(lines(output));
    if fields.len() == 0 {
        output
    } else {
        let heading = match first_value(fields, "Label"@) {
            Some(l) => "## "@ + l + "\n\n"@,
            None => seq![],
        };
        heading + concat_rows(fields, |k: Seq<char>, v: Seq<char>| markdown_row(k, v)) + "\n---\n\n```json\n"@
            + header_content(output) + "\n```"@
    }
}

/// Render a result as plain text with a framed header.
fn render_plain(output: &str) -> (r: String)
    requires
        header_offset_ok(output@),
    ensures
        r@ == spec_format_plain(output@),
{
    let (metadata, content) = parse_output_header(output);
    if metadata.len() == 0 {
        return output.to_string();
    }
    let ghost fs = pair_views(metadata@);
    let ghost row = |k: Seq<char>, v: Seq<char>| plain_row(k, v);
    let mut out = String::new();
    push_repeat(&mut out, "─", 60);
    out.append("\n");
    let ghost base = out@;
    let mut i: usize = 0;
    assert(fs.take(0) =~= Seq::<(Seq<char>, Seq<char>)>::empty());
    while i < metadata.len()
        invariant
            fs == pair_views(metadata@),
            row == (|k: Seq<char>, v: Seq<char>| plain_row(k, v)),
            i <= metadata@.len(),
            out@ == base + concat_rows(fs.take(i as int), row),
        decreases metadata@.len() - i,
    {
        let (key, value) = metadata[i];
        let ghost prev = out@;
        out.append(plain_icon_of(key));
        out.append(" ");
        push_pad_right(&mut out, key, 12);
        out.append(" ");
        out.append(value);
        out.append("\n");
        proof {
            lemma_concat_rows_step(fs, i as int, row);
            assert(fs[i as int] == (key@, value@));
            assert(out@ =~= prev + plain_row(key@, value@));
        }
        i = i + 1;
    }
    assert(fs.take(metadata@.len() as int) =~= fs);
    push_repeat(&mut out, "─", 60);
    out.append("\n\n");
    out.append(content);
    out
}

/// Render a result with ANSI colors and a dimmed frame.
fn render_ansi(output: &str) -> (r: String)
    requires
        header_offset_ok(output@),
    ensures
        r@ == spec_format_ansi(output@),
{
    let (metadata, content) = parse_output_header(output);
    if metadata.len() == 0 {
        return output.to_string();
    }
    let ghost fs = pair_views(metadata@);
    let ghost row = |k: Seq<char>, v: Seq<char>| ansi_row(k, v);
    let mut out = String::new();
    out.append("\x1b[2m");
    push_repeat(&mut out, "─", 60);
    out.append("\x1b[0m\n");
    let ghost base = out@;
    let mut i: usize = 0;
    assert(fs.take(0) =~= Seq::<(Seq<char>, Seq<char>)>::empty());
    while i < metadata.len()
        invariant
            fs == pair_views(metadata@),
            row == (|k: Seq<char>, v: Seq<char>| ansi_row(k, v)),
            i <= metadata@.len(),
            out@ == base + concat_rows(fs.take(i as int), row),
        decreases metadata@.len() - i,
    {
        let (key, value) = metadata[i];
        let ghost prev = out@;
        let (icon, color) = ansi_style_of(key);
        out.append(icon);
        out.append(" \x1b[2m");
        push_pad_right(&mut out, key, 12);
        out.append("\x1b[0m ");
        out.append(color);
        out.append(value);
        out.append("\x1b[0m\n");
        proof {
            lemma_concat_rows_step(fs, i as int, row);
            assert(fs[i as int] == (key@, value@));
            assert(out@ =~= prev + ansi_row(key@, value@));
        }
        i = i + 1;
    }
    assert(fs.take(metadata@.len() as int) =~= fs);
    out.append("\x1b[2m");
    push_repeat(&mut out, "─", 60);
    out.append("\x1b[0m\n\n");
    out.append(content);
    out
}

/// Render a result as Markdown: the label as a heading, the other fields
/// as a list, and the response in a JSON code block.
fn render_markdown(output: &str) -> (r: String)
    requires
        header_offset_ok(output@),
    ensures
        r@ == spec_format_markdown(output@),
{
    let (metadata, content) = parse_output_header(output);
    if metadata.len() == 0 {
        return output.to_string();
    }
    let ghost fs = pair_views(metadata@);
    let ghost row = |k: Seq<char>, v: Seq<char>| markdown_row(k, v);
    let mut out = String::new();
    match find_value(&metadata, "Label") {
        Some(l) => {
            out.append("## ");
            out.append(l);
            out.append("\n\n");
        },
        None => {},
    }
    let ghost base = out@;
    let mut i: usize = 0;
    assert(fs.take(0) =~= Seq::<(Seq<char>, Seq<char>)>::empty());
    while i < metadata.len()
        invariant
            fs == pair_views(metadata@),
            row == (|k: Seq<char>, v: Seq<char>| markdown_row(k, v)),
            i <= metadata@.len(),
            out@ == base + concat_rows(fs.take(i as int), row),
        decreases metadata@.len() - i,
    {
        let (key, value) = metadata[i];
        let ghost prev = out@;
        if !str_equal(key, "Label") {
            out.append("- **");
            out.append(key);
            out.append("**: ");
            out.append(value);
            out.append("\n");
        }
        proof {
            lemma_concat_rows_step(fs, i as int, row);
            assert(fs[i as int] == (key@, value@));
            assert(out@ =~= prev + markdown_row(key@, value@));
        }
        i = i + 1;
    }
    assert(fs.take(metadata@.len() as int) =~= fs);
    out.append("\n---\n\n```json\n");
    out.append(content);
    out.append("\n```");
    out
}

/// The kind of a JSON value.
#[derive(Debug, Clone, Copy, PartialEq, Eq, Structural)]
pub enum JsonKind {
    Null,
    Bool,
    Number,
    String,
    Array,
    Object,
}

/// The name of a JSON kind as error messages give it.
pub open spec fn kind_name(k: JsonKind) -> Seq<char> {
    match k {
        JsonKind::Null => "null"@,
        JsonKind::Bool => "boolean"@,
        JsonKind::Number => "number"@,
        JsonKind::String => "string"@,
        JsonKind::Array => "array"@,
        JsonKind::Object => "object"@,
    }
}

fn kind_name_of(k: JsonKind) -> (r: &'static str)
    ensures
        r@ == kind_name(k),
{
    match k {
        JsonKind::Null => "null",
        JsonKind::Bool => "boolean",
        JsonKind::Number => "number",
        JsonKind::String => "string",
        JsonKind::Array => "array",
        JsonKind::Object => "object",
    }
}

/// Operation parameters: their JSON kind and their JSON text, which is
/// sent as the request body.
#[derive(Debug)]
pub struct JsonParameters {
    pub kind: JsonKind,
    pub text: String,
}

/// Input for an AWS API call.
#[derive(Debug)]
pub struct UseAwsInput {
    /// The AWS service name (e.g., "sts", "s3", "dynamodb").
    pub service_name: String,
    /// The API operation to perform (e.g., "GetCallerIdentity").
    pub operation_name: String,
    /// Parameters for the operation as a JSON object.
    pub parameters: JsonParameters,
    /// AWS region for the API call (e.g., "us-east-1").
    pub region: String,
    /// Human-readable description of what this operation does.
    pub label: Option<String>,
    /// Optional AWS profile name.
    pub profile_name: Option<String>,
}

/// The error an input is refused with, checked in order: the service, the
/// operation, the region, then the kind of the parameters.
pub open spec fn input_error(input: UseAwsInput) -> Option<Seq<char>> {
    if input.service_name@.len() == 0 {
        Some("service_name cannot be empty. Use lowercase AWS service names like 'sts', 'dynamodb', 's3'."@)
    } else if input.operation_name@.len() == 0 {
        Some("operation_name cannot be empty. Use PascalCase operation names like 'GetCallerIdentity', 'ListBuckets'."@)
    } else if input.region@.len() == 0 {
        Some("region cannot be empty. Use AWS region codes like 'us-east-1', 'eu-west-1'."@)
    } else if input.parameters.kind != JsonKind::Object {
        Some("parameters must be a JSON object, got: "@ + kind_name(input.parameters.kind))
    } else {
        None
    }
}

/// Validate input fields, with actionable error messages.
pub fn validate_input(input: &UseAwsInput) -> (r: Result<(), String>)
    ensures
        r is Ok <==> input_error(*input) is None,
        r matches Err(e) ==> input_error(*input) == Some(e@),
{
    if input.service_name.unicode_len() == 0 {
        return Err(
            "service_name cannot be empty. Use lowercase AWS service names like 'sts', 'dynamodb', 's3'.".to_string(),
        );
    }
    if input.operation_name.unicode_len() == 0 {
        return Err(
            "operation_name cannot be empty. Use PascalCase operation names like 'GetCallerIdentity', 'ListBuckets'.".to_string(),
        );
    }
    if input.region.unicode_len() == 0 {
        return Err("region cannot be empty. Use AWS region codes like 'us-east-1', 'eu-west-1'.".to_string());
    }
    match input.parameters.kind {
        JsonKind::Object => Ok(()),
        k => {
            let mut e = "parameters must be a JSON object, got: ".to_string();
            e.append(kind_name_of(k));
            Err(e)
        },
    }
}

/// The label shown for a call: the one given, else the operation name.
pub open spec fn call_label(input: UseAwsInput) -> Seq<char> {
    match input.label {
        Some(l) => l@,
        None => input.operation_name@,
    }
}

/// The result text of a successful call: the service, operation, region
/// and label, a warning for a mutative operation, then the response.
pub open spec fn result_text(input: UseAwsInput, response: Seq<char>) -> Seq<char> {
    "Service: "@ + input.service_name@ + "\nOperation: "@ + input.operation_name@ + "\nRegion: "@ + input.region@
        + "\nLabel: "@ + call_label(input) + "\n"@ + (if spec_is_mutative(input.operation_name@) {
        "Warning: This was a mutative operation\n"@
    } else {
        seq![]
    }) + "\n---\n\n"@ + response
}

/// The result text of a successful call, around the pretty-printed
/// response.
pub fn build_result(input: &UseAwsInput, response: &str) -> (r: String)
    ensures
        r@ == result_text(*input, response@),
{
    let mut r = "Service: ".to_string();
    r.append(input.service_name.as_str());
    r.append("\nOperation: ");
    r.append(input.operation_name.as_str());
    r.append("\nRegion: ");
    r.append(input.region.as_str());
    r.append("\nLabel: ");
    match &input.label {
        Some(l) => r.append(l.as_str()),
        None => r.append(input.operation_name.as_str()),
    }
    r.append("\n");
    if is_mutative_operation(input.operation_name.as_str()) {
        r.append("Warning: This was a mutative operation\n");
    }
    r.append("\n---\n\n");
    r.append(response);
    proof {
        reveal_strlit("");
    }
    assert(r@ =~= result_text(*input, response@));
    r
}

/// What `serde_json` pretty-prints of a response body that parses as
/// JSON; `None` when it does not parse.
pub uninterp spec fn json_pretty(body: Seq<char>) -> Option<Seq<char>>;

/// What `serde_json` pretty-prints of an object with the one member
/// `key` holding the string `value`.
pub uninterp spec fn single_member_pretty(key: Seq<char>, value: Seq<char>) -> Seq<char>;

/// `serde_json::from_str` on a response body, then `to_string_pretty`
/// (the compact form if that fails).
#[verifier::external_body]
fn pretty_json(body: &str) -> (r: Option<String>)
    ensures
        match r {
            Some(p) => json_pretty(body@) == Some(p@),
            None => json_pretty(body@) is None,
        },
{
    let v: serde_json::Value = serde_json::from_str(body).ok()?;
    Some(serde_json::to_string_pretty(&v).unwrap_or_else(|_| v.to_string()))
}

/// `serde_json::to_string_pretty` of the object with the one member `key`
/// holding `value` as a string (the compact form if that fails).
#[verifier::external_body]
fn pretty_single_member(key: &str, value: &str) -> (r: String)
    ensures
        r@ == single_member_pretty(key@, value@),
{
    let mut m = serde_json::Map::new();
    m.insert(key.to_string(), serde_json::Value::String(value.to_string()));
    let v = serde_json::Value::Object(m);
    serde_json::to_string_pretty(&v).unwrap_or_else(|_| v.to_string())
}

/// The response shown in a result: the body pretty-printed when it is
/// JSON, else wrapped as `raw_response`.
pub open spec fn response_shown(body: Seq<char>) -> Seq<char> {
    match json_pretty(body) {
        Some(p) => p,
        None => single_member_pretty("raw_response"@, body),
    }
}

/// The response shown in a result.
pub fn response_text(body: &str) -> (r: String)
    ensures
        r@ == response_shown(body@),
{
    match pretty_json(body) {
        Some(p) => p,
        None => pretty_single_member("raw_response", body),
    }
}

/// The stage at which a call failed before an answer was read.
pub enum CallStage {
    /// Building or signing the request.
    Build,
    /// Sending it.
    Send,
    /// Reading the answer.
    Read,
}

/// The message of a call that failed at a stage.
pub open spec fn call_error_text(stage: CallStage, service: Seq<char>, operation: Seq<char>, region: Seq<char>, detail: Seq<char>) -> Seq<char> {
    match stage {
        CallStage::Build => "Failed to build request for "@ + service + "."@ + operation + " in "@ + region + ": "@
            + detail,
        CallStage::Send => "AWS request failed for "@ + service + "."@ + operation + " in "@ + region + ": "@ + detail,
        CallStage::Read => "Failed to read response from "@ + service + "."@ + operation + ": "@ + detail,
    }
}

/// The message of a call that failed at a stage.
pub fn call_error(stage: CallStage, input: &UseAwsInput, detail: &str) -> (r: String)
    ensures
        r@ == call_error_text(stage, input.service_name@, input.operation_name@, input.region@, detail@),
{
    let mut r = match stage {
        CallStage::Build => "Failed to build request for ".to_string(),
        CallStage::Send => "AWS request failed for ".to_string(),
        CallStage::Read => "Failed to read response from ".to_string(),
    };
    r.append(input.service_name.as_str());
    r.append(".");
    r.append(input.operation_name.as_str());
    match stage {
        CallStage::Read => {},
        _ => {
            r.append(" in ");
            r.append(input.region.as_str());
        },
    }
    r.append(": ");
    r.append(detail);
    r
}

/// The header fields of a result: service, operation, region, label, and
/// the warning of a mutative operation.
pub open spec fn result_fields(input: UseAwsInput) -> Seq<(Seq<char>, Seq<char>)> {
    seq![
        ("Service"@, input.service_name@),
        ("Operation"@, input.operation_name@),
        ("Region"@, input.region@),
        ("Label"@, call_label(input)),
    ] + if spec_is_mutative(input.operation_name@) {
        seq![("Warning"@, "This was a mutative operation"@)]
    } else {
        seq![]
    }
}

/// The formatters read back what a call wrote: the fields of a result are
/// its service, operation, region, label and warning, and its content is
/// the response, when none of these breaks a line.
pub proof fn law_result_read_back(input: UseAwsInput, response: Seq<char>)
    requires
        single_line(input.service_name@),
        single_line(input.operation_name@),
        single_line(input.region@),
        single_line(call_label(input)),
    ensures
        header_fields(lines(result_text(input, response))) == result_fields(input),
        header_content(result_text(input, response)) == trim_start_matches_spec(response, "\n"@),
        header_offset_ok(result_text(input, response)),
{
    reveal_strlit("Service");
    reveal_strlit("Operation");
    reveal_strlit("Region");
    reveal_strlit("Label");
    reveal_strlit("Warning");
    reveal_strlit("This was a mutative operation");
    let fs = result_fields(input);
    assert forall|i: int| 0 <= i < fs.len() implies writable_field(#[trigger] fs[i]) by {}
    law_header_read_back(fs, response);
    reveal_with_fuel(header_text, 6);
    reveal_strlit("Service: ");
    reveal_strlit("\nOperation: ");
    reveal_strlit("\nRegion: ");
    reveal_strlit("\nLabel: ");
    reveal_strlit("\n");
    reveal_strlit(": ");
    reveal_strlit("Warning: This was a mutative operation\n");
    reveal_strlit("\n---\n\n");
    assert(result_text(input, response) =~= framed(fs, response));
}

/// What `serde_json` reads of the member `key` of a body: `None` when the
/// body is not JSON, else the member absent (`Some(None)`), present but
/// not a string (`Some(Some(None))`), or a string.
pub uninterp spec fn json_member(body: Seq<char>, key: Seq<char>) -> Option<Option<Option<Seq<char>>>>;

/// What `serde_json` reads of the member `inner` of the member `outer` of
/// a body, in the same form as `json_member`.
pub uninterp spec fn json_nested_member(body: Seq<char>, outer: Seq<char>, inner: Seq<char>) -> Option<
    Option<Option<Seq<char>>>,
>;

/// The view of an optional, possibly non-string member.
pub open spec fn member_view(m: Option<Option<String>>) -> Option<Option<Seq<char>>> {
    match m {
        Some(Some(s)) => Some(Some(s@)),
        Some(None) => Some(None),
        None => None,
    }
}

/// The view of a member read from a body that may not be JSON.
pub open spec fn read_view(m: Option<Option<Option<String>>>) -> Option<Option<Option<Seq<char>>>> {
    match m {
        Some(x) => Some(member_view(x)),
        None => None,
    }
}

/// `serde_json::from_str` on a body, then `get(key)` and `as_str`.
#[verifier::external_body]
fn read_json_member(body: &str, key: &str) -> (r: Option<Option<Option<String>>>)
    ensures
        read_view(r) == json_member(body@, key@),
{
    let v: serde_json::Value = serde_json::from_str(body).ok()?;
    Some(v.get(key).map(|x| x.as_str().map(|s| s.to_string())))
}

/// `serde_json::from_str` on a body, then `get(outer)`, `get(inner)` and
/// `as_str`.
#[verifier::external_body]
fn read_json_nested_member(body: &str, outer: &str, inner: &str) -> (r: Option<Option<Option<String>>>)
    ensures
        read_view(r) == json_nested_member(body@, outer@, inner@),
{
    let v: serde_json::Value = serde_json::from_str(body).ok()?;
    Some(v.get(outer).and_then(|e| e.get(inner)).map(|x| x.as_str().map(|s| s.to_string())))
}

/// The member read from a body, as absent where the body did not parse.
pub open spec fn known_member(m: Option<Option<Option<Seq<char>>>>) -> Option<Option<Seq<char>>> {
    match m {
        Some(x) => x,
        None => None,
    }
}

fn known(m: Option<Option<Option<String>>>) -> (r: Option<Option<String>>)
    ensures
        member_view(r) == known_member(read_view(m)),
{
    match m {
        Some(x) => x,
        None => None,
    }
}

/// The first member present, read as a string.
pub open spec fn first_present(a: Option<Option<Seq<char>>>, b: Option<Option<Seq<char>>>) -> Option<Seq<char>> {
    match a {
        Some(x) => x,
        None => match b {
            Some(y) => y,
            None => None,
        },
    }
}

/// The message of a failed call: the error type and message from a JSON
/// body (`Unknown` and the body standing in for missing ones), else the
/// body itself.
pub open spec fn aws_error_text(service: Seq<char>, operation: Seq<char>, region: Seq<char>, status: Seq<char>, body: Seq<char>) -> Seq<char> {
    let head = "AWS API error for "@ + service + "."@ + operation + " in "@ + region + " (HTTP "@ + status + "): "@;
    match json_member(body, "__type"@) {
        Some(t) => {
            let code = known_member(json_nested_member(body, "Error"@, "Code"@));
            let lower = known_member(json_member(body, "message"@));
            let upper = known_member(json_member(body, "Message"@));
            let inner = known_member(json_nested_member(body, "Error"@, "Message"@));
            let error_type = match first_present(t, code) {
                Some(t) => t,
                None => "Unknown"@,
            };
            let message = match first_present(lower, Some(first_present(upper, inner))) {
                Some(t) => t,
                None => body,
            };
            head + error_type + " - "@ + message
        },
        None => head + body,
    }
}

fn pick<'a>(a: &'a Option<Option<String>>, b: &'a Option<Option<String>>) -> (r: Option<&'a String>)
    ensures
        match first_present(member_view(*a), member_view(*b)) {
            Some(t) => r matches Some(x) && x@ == t,
            None => r is None,
        },
{
    match a {
        Some(x) => x.as_ref(),
        None => match b {
            Some(y) => y.as_ref(),
            None => None,
        },
    }
}

/// Parse an error response into an actionable message; `status` is the
/// HTTP status as it is displayed (`400 Bad Request`).
pub fn parse_aws_error(service_name: &str, operation_name: &str, region: &str, status: &str, body: &str) -> (r: String)
    ensures
        r@ == aws_error_text(service_name@, operation_name@, region@, status@, body@),
{
    let mut r = "AWS API error for ".to_string();
    r.append(service_name);
    r.append(".");
    r.append(operation_name);
    r.append(" in ");
    r.append(region);
    r.append(" (HTTP ");
    r.append(status);
    r.append("): ");
    match read_json_member(body, "__type") {
        Some(t) => {
            let code = known(read_json_nested_member(body, "Error", "Code"));
            match pick(&t, &code) {
                Some(t) => r.append(t.as_str()),
                None => r.append("Unknown"),
            }
            r.append(" - ");
            let lower = known(read_json_member(body, "message"));
            let upper = known(read_json_member(body, "Message"));
            let inner_message = known(read_json_nested_member(body, "Error", "Message"));
            let inner: Option<Option<String>> = match &upper {
                Some(x) => Some(x.clone()),
                None => match &inner_message {
                    Some(y) => Some(y.clone()),
                    None => None,
                },
            };
            match pick(&lower, &inner) {
                Some(t) => r.append(t.as_str()),
                None => r.append(body),
            }
        },
        None => r.append(body),
    }
    r
}

/// The default request timeout of the tool, in seconds.
pub open spec fn default_timeout_secs() -> u64 {
    60
}

/// The `Duration` that `Duration::from_secs` makes of a number of seconds.
pub uninterp spec fn secs_duration(secs: u64) -> Duration;

/// `Duration::from_secs`.
#[verifier::external_body]
fn duration_from_secs(secs: u64) -> (d: Duration)
    ensures
        d == secs_duration(secs),
{
    Duration::from_secs(secs)
}

/// The configuration an AWS tool is built from.
pub struct UseAwsToolBuilder {
    pub profile: Option<String>,
    pub timeout: Option<Duration>,
    pub custom_service_targets: ServiceTargets,
}

impl UseAwsToolBuilder {
    /// A builder with no profile, no timeout and no custom targets.
    pub fn default() -> (b: Self)
        ensures
            b.profile is None,
            b.timeout is None,
            b.custom_service_targets@ == Map::<Seq<char>, Seq<char>>::empty(),
    {
        UseAwsToolBuilder { profile: None, timeout: None, custom_service_targets: ServiceTargets::new() }
    }

    /// Set the AWS profile to use for credentials.
    pub fn profile(self, profile: &str) -> (b: Self)
        ensures
            b.profile matches Some(p) && p@ == profile@,
            b.timeout == self.timeout,
            b.custom_service_targets == self.custom_service_targets,
    {
        UseAwsToolBuilder { profile: Some(profile.to_string()), ..self }
    }

    /// Set the HTTP request timeout.
    pub fn timeout(self, timeout: Duration) -> (b: Self)
        ensures
            b.timeout == Some(timeout),
            b.profile == self.profile,
            b.custom_service_targets == self.custom_service_targets,
    {
        UseAwsToolBuilder { timeout: Some(timeout), ..self }
    }

    /// Add a custom service target prefix for the `x-amz-target` header.
    pub fn with_service_target(self, service_name: &str, target_prefix: &str) -> (b: Self)
        ensures
            b.custom_service_targets@ == self.custom_service_targets@.insert(service_name@, target_prefix@),
            b.profile == self.profile,
            b.timeout == self.timeout,
    {
        let mut b = self;
        b.custom_service_targets.insert(service_name.to_string(), target_prefix.to_string());
        b
    }

    /// The tool this configuration describes: the default targets with the
    /// custom ones over them, and the timeout (60 seconds if none was set).
    pub fn build(self) -> (t: UseAwsTool)
        ensures
            t.service_targets@ == default_targets().union_prefer_right(self.custom_service_targets@),
            t.timeout == match self.timeout {
                Some(d) => d,
                None => secs_duration(default_timeout_secs()),
            },
    {
        let timeout = match self.timeout {
            Some(d) => d,
            None => duration_from_secs(60),
        };
        let mut targets = default_service_targets();
        targets.extend(self.custom_service_targets);
        UseAwsTool { service_targets: targets, timeout }
    }
}

/// Tool for making AWS API calls: the service target prefixes and the
/// request timeout; credentials and the HTTP client live with the caller.
pub struct UseAwsTool {
    pub service_targets: ServiceTargets,
    pub timeout: Duration,
}

impl UseAwsTool {
    /// A builder for custom configuration.
    pub fn builder() -> (b: UseAwsToolBuilder)
        ensures
            b.profile is None,
            b.timeout is None,
            b.custom_service_targets@ == Map::<Seq<char>, Seq<char>>::empty(),
    {
        UseAwsToolBuilder::default()
    }

    /// The tool's name.
    pub fn name(&self) -> (r: &'static str)
        ensures
            r@ == "use_aws"@,
    {
        "use_aws"
    }

    /// The tool's description.
    pub fn description(&self) -> (r: &'static str)
        ensures
            r@ == "Make AWS API calls using service and operation names. Supports all AWS services with JSON-based APIs. Use PascalCase operation names (e.g., 'ListBuckets', 'GetCallerIdentity')."@,
    {
        "Make AWS API calls using service and operation names. Supports all AWS services with JSON-based APIs. Use PascalCase operation names (e.g., 'ListBuckets', 'GetCallerIdentity')."
    }

    /// A result as plain text with a framed header.
    pub fn format_output_plain(&self, output: &str) -> (r: String)
        requires
            header_offset_ok(output@),
        ensures
            r@ == spec_format_plain(output@),
    {
        render_plain(output)
    }

    /// A result with ANSI colors.
    pub fn format_output_ansi(&self, output: &str) -> (r: String)
        requires
            header_offset_ok(output@),
        ensures
            r@ == spec_format_ansi(output@),
    {
        render_ansi(output)
    }

    /// A result as Markdown.
    pub fn format_output_markdown(&self, output: &str) -> (r: String)
        requires
            header_offset_ok(output@),
        ensures
            r@ == spec_format_markdown(output@),
    {
        render_markdown(output)
    }

    /// The service target prefix of a service: its own, else its name.
    pub fn get_service_target(&self, service_name: &str) -> (r: String)
        ensures
            r@ == spec_service_target(self.service_targets@, service_name@),
    {
        get_service_target(&self.service_targets, service_name)
    }
}

/// The content type of every AWS JSON request.
pub open spec fn aws_content_type() -> Seq<char> {
    "application/x-amz-json-1.1; charset=utf-8"@
}

/// Whether a text can be a header value: no control character but tab.
pub open spec fn header_value_ok(v: Seq<char>) -> bool {
    forall|i: int| 0 <= i < v.len() ==> ((#[trigger] v[i]) as u32 >= 32 && v[i] != '\x7f') || v[i] == '\t'
}

/// The headers an AWS request is signed over: the endpoint's host, the
/// content type, the target, and the session token when there is one.
pub open spec fn request_header_list(
    host: Seq<char>,
    target: Seq<char>,
    token: Option<Seq<char>>,
) -> Seq<(Seq<char>, Seq<char>)> {
    seq![("host"@, host), ("content-type"@, aws_content_type()), ("x-amz-target"@, target)] + match token {
        Some(t) => seq![("x-amz-security-token"@, t)],
        None => seq![],
    }
}

/// The views of header pairs.
pub open spec fn header_views(hs: Seq<(String, String)>) -> Seq<(Seq<char>, Seq<char>)> {
    hs.map_values(|h: (String, String)| (h.0@, h.1@))
}

/// What the request for an operation is sent to and signed over: the
/// endpoint, and the headers; an endpoint that does not parse, or has no
/// host, is an error.
pub open spec fn spec_request_plan(
    targets: Map<Seq<char>, Seq<char>>,
    service: Seq<char>,
    operation: Seq<char>,
    region: Seq<char>,
    token: Option<Seq<char>>,
) -> Result<(Seq<char>, Seq<(Seq<char>, Seq<char>)>), Seq<char>> {
    let endpoint = spec_endpoint(service, region);
    match crate::tools::fetch::url_parse(endpoint) {
        Err(m) => Err("Invalid endpoint URL: "@ + m),
        Ok(u) => match u.1 {
            None => Err("Endpoint has no host"@),
            Some(host) => Ok(
                (endpoint, request_header_list(host, spec_service_target(targets, service) + "."@ + operation, token)),
            ),
        },
    }
}

fn is_header_value(v: &str) -> (b: bool)
    ensures
        b == header_value_ok(v@),
{
    let cs = crate::text::chars_of(v);
    let mut i: usize = 0;
    while i < cs.len()
        invariant
            cs@ == v@,
            i <= cs@.len(),
            forall|j: int| 0 <= j < i ==> ((#[trigger] v@[j]) as u32 >= 32 && v@[j] != '\x7f') || v@[j] == '\t',
        decreases cs@.len() - i,
    {
        let c = cs[i];
        if !(((c as u32) >= 32 && c != '\x7f') || c == '\t') {
            assert(!(((v@[i as int]) as u32 >= 32 && v@[i as int] != '\x7f') || v@[i as int] == '\t'));
            return false;
        }
        i = i + 1;
    }
    true
}

impl UseAwsTool {
    /// The endpoint and headers of the request for an operation; a target
    /// or session token that is no header value is refused up front, as
    /// building the request would fail on it.
    pub fn request_plan(
        &self,
        service_name: &str,
        operation_name: &str,
        region: &str,
        session_token: Option<&str>,
    ) -> (r: Result<(String, Vec<(String, String)>), String>)
        requires
            header_value_ok(spec_service_target(self.service_targets@, service_name@) + "."@ + operation_name@),
            session_token matches Some(t) ==> header_value_ok(t@),
        ensures
            match spec_request_plan(
                self.service_targets@,
                service_name@,
                operation_name@,
                region@,
                crate::tools::render::opt_view(session_token),
            ) {
                Ok((e, hs)) => r matches Ok(p) && p.0@ == e && header_views(p.1@) == hs,
                Err(m) => r matches Err(e) && e@ == m,
            },
    {
        let endpoint = get_endpoint(service_name, region);
        match crate::tools::fetch::parse_url(endpoint.as_str()) {
            Err(m) => {
                let mut e = "Invalid endpoint URL: ".to_string();
                e.append(m.as_str());
                Err(e)
            },
            Ok((_, host, _)) => match host {
                None => Err("Endpoint has no host".to_string()),
                Some(h) => {
                    let target = target_header(&self.service_targets, service_name, operation_name);
                    let mut headers: Vec<(String, String)> = Vec::new();
                    headers.push(("host".to_string(), h));
                    headers.push(("content-type".to_string(), "application/x-amz-json-1.1; charset=utf-8".to_string()));
                    headers.push(("x-amz-target".to_string(), target));
                    match session_token {
                        Some(t) => headers.push(("x-amz-security-token".to_string(), t.to_string())),
                        None => {},
                    }
                    let ghost expected = request_header_list(
                        h@,
                        spec_service_target(self.service_targets@, service_name@) + "."@ + operation_name@,
                        crate::tools::render::opt_view(session_token),
                    );
                    assert(header_views(headers@) =~= expected);
                    Ok((endpoint, headers))
                },
            },
        }
    }

    /// Whether a target and session token can be sent as header values.
    pub fn can_send(&self, service_name: &str, operation_name: &str, session_token: Option<&str>) -> (b: bool)
        ensures
            b == (header_value_ok(spec_service_target(self.service_targets@, service_name@) + "."@ + operation_name@)
                && (session_token matches Some(t) ==> header_value_ok(t@))),
    {
        let target = target_header(&self.service_targets, service_name, operation_name);
        let ok = is_header_value(target.as_str());
        match session_token {
            Some(t) => ok && is_header_value(t),
            None => ok,
        }
    }
}

/// Reading a service's target after setting it gives the prefix that was
/// set, and leaves every other service's prefix as it was.
pub proof fn law_target_read_after_write(m: Map<Seq<char>, Seq<char>>, k: Seq<char>, v: Seq<char>, other: Seq<char>)
    requires
        other != k,
    ensures
        m.insert(k, v)[k] == v,
        m.insert(k, v).contains_key(other) == m.contains_key(other),
        m.contains_key(other) ==> m.insert(k, v)[other] == m[other],
{
}

/// The operations that may change resources are flagged: every operation
/// whose name begins with a creating, writing, deleting, changing,
/// stopping, starting, granting or revoking verb is mutative, and the
/// reading ones (`Get`, `List`, `Describe`, `Head`) are not.
pub proof fn law_mutative_operations(op: Seq<char>)
    ensures
        has_prefix(op, "Create"@) ==> spec_is_mutative(op),
        has_prefix(op, "Put"@) ==> spec_is_mutative(op),
        has_prefix(op, "Delete"@) ==> spec_is_mutative(op),
        has_prefix(op, "Update"@) ==> spec_is_mutative(op),
        has_prefix(op, "Terminate"@) ==> spec_is_mutative(op),
        has_prefix(op, "Revoke"@) ==> spec_is_mutative(op),
        has_prefix(op, "Disable"@) ==> spec_is_mutative(op),
        has_prefix(op, "Deregister"@) ==> spec_is_mutative(op),
        has_prefix(op, "Stop"@) ==> spec_is_mutative(op),
        has_prefix(op, "Add"@) ==> spec_is_mutative(op),
        has_prefix(op, "Modify"@) ==> spec_is_mutative(op),
        has_prefix(op, "Remove"@) ==> spec_is_mutative(op),
        has_prefix(op, "Attach"@) ==> spec_is_mutative(op),
        has_prefix(op, "Detach"@) ==> spec_is_mutative(op),
        has_prefix(op, "Start"@) ==> spec_is_mutative(op),
        has_prefix(op, "Enable"@) ==> spec_is_mutative(op),
        has_prefix(op, "Register"@) ==> spec_is_mutative(op),
        has_prefix(op, "Set"@) ==> spec_is_mutative(op),
        has_prefix(op, "Associate"@) ==> spec_is_mutative(op),
        has_prefix(op, "Disassociate"@) ==> spec_is_mutative(op),
        has_prefix(op, "Allocate"@) ==> spec_is_mutative(op),
        has_prefix(op, "Release"@) ==> spec_is_mutative(op),
        has_prefix(op, "Cancel"@) ==> spec_is_mutative(op),
        has_prefix(op, "Reboot"@) ==> spec_is_mutative(op),
        has_prefix(op, "Accept"@) ==> spec_is_mutative(op),
        has_prefix(op, "Get"@) ==> !spec_is_mutative(op),
        has_prefix(op, "List"@) ==> !spec_is_mutative(op),
        has_prefix(op, "Describe"@) ==> !spec_is_mutative(op),
        has_prefix(op, "Head"@) ==> !spec_is_mutative(op),
{
    reveal_strlit("Create");
    reveal_strlit("Put");
    reveal_strlit("Delete");
    reveal_strlit("Update");
    reveal_strlit("Terminate");
    reveal_strlit("Revoke");
    reveal_strlit("Disable");
    reveal_strlit("Deregister");
    reveal_strlit("Stop");
    reveal_strlit("Add");
    reveal_strlit("Modify");
    reveal_strlit("Remove");
    reveal_strlit("Attach");
    reveal_strlit("Detach");
    reveal_strlit("Start");
    reveal_strlit("Enable");
    reveal_strlit("Register");
    reveal_strlit("Set");
    reveal_strlit("Associate");
    reveal_strlit("Disassociate");
    reveal_strlit("Allocate");
    reveal_strlit("Release");
    reveal_strlit("Cancel");
    reveal_strlit("Reboot");
    reveal_strlit("Accept");
    reveal_strlit("Get");
    reveal_strlit("List");
    reveal_strlit("Describe");
    reveal_strlit("Head");
    if has_prefix(op, "Create"@) {
        assert(mutative_prefixes()[0] == "Create"@);
    }
    if has_prefix(op, "Put"@) {
        assert(mutative_prefixes()[1] == "Put"@);
    }
    if has_prefix(op, "Delete"@) {
        assert(mutative_prefixes()[2] == "Delete"@);
    }
    if has_prefix(op, "Update"@) {
        assert(mutative_prefixes()[3] == "Update"@);
    }
    if has_prefix(op, "Terminate"@) {
        assert(mutative_prefixes()[4] == "Terminate"@);
    }
    if has_prefix(op, "Revoke"@) {
        assert(mutative_prefixes()[5] == "Revoke"@);
    }
    if has_prefix(op, "Disable"@) {
        assert(mutative_prefixes()[6] == "Disable"@);
    }
    if has_prefix(op, "Deregister"@) {
        assert(mutative_prefixes()[7] == "Deregister"@);
    }
    if has_prefix(op, "Stop"@) {
        assert(mutative_prefixes()[8] == "Stop"@);
    }
    if has_prefix(op, "Add"@) {
        assert(mutative_prefixes()[9] == "Add"@);
    }
    if has_prefix(op, "Modify"@) {
        assert(mutative_prefixes()[10] == "Modify"@);
    }
    if has_prefix(op, "Remove"@) {
        assert(mutative_prefixes()[11] == "Remove"@);
    }
    if has_prefix(op, "Attach"@) {
        assert(mutative_prefixes()[12] == "Attach"@);
    }
    if has_prefix(op, "Detach"@) {
        assert(mutative_prefixes()[13] == "Detach"@);
    }
    if has_prefix(op, "Start"@) {
        assert(mutative_prefixes()[14] == "Start"@);
    }
    if has_prefix(op, "Enable"@) {
        assert(mutative_prefixes()[15] == "Enable"@);
    }
    if has_prefix(op, "Register"@) {
        assert(mutative_prefixes()[16] == "Register"@);
    }
    if has_prefix(op, "Set"@) {
        assert(mutative_prefixes()[17] == "Set"@);
    }
    if has_prefix(op, "Associate"@) {
        assert(mutative_prefixes()[18] == "Associate"@);
    }
    if has_prefix(op, "Disassociate"@) {
        assert(mutative_prefixes()[19] == "Disassociate"@);
    }
    if has_prefix(op, "Allocate"@) {
        assert(mutative_prefixes()[20] == "Allocate"@);
    }
    if has_prefix(op, "Release"@) {
        assert(mutative_prefixes()[21] == "Release"@);
    }
    if has_prefix(op, "Cancel"@) {
        assert(mutative_prefixes()[22] == "Cancel"@);
    }
    if has_prefix(op, "Reboot"@) {
        assert(mutative_prefixes()[23] == "Reboot"@);
    }
    if has_prefix(op, "Accept"@) {
        assert(mutative_prefixes()[24] == "Accept"@);
    }
    if has_prefix(op, "Get"@) || has_prefix(op, "List"@) || has_prefix(op, "Describe"@) || has_prefix(op, "Head"@) {
        assert forall|i: int| 0 <= i < mutative_prefixes().len() implies !has_prefix(op, #[trigger] mutative_prefixes()[i]) by {
            let p = mutative_prefixes()[i];
            if has_prefix(op, p) {
                assert(op[0] == p[0]);
                if has_prefix(op, "Describe"@) {
                    assert(op[1] == p[1]);
                    assert(op[2] == p[2]);
                }
            }
        }
    }
}

/// An input is accepted exactly when its service, operation and region
/// are all given and its parameters are a JSON object; the first missing
/// field is named in the refusal, and parameters of another kind are
/// refused with that kind's name.
pub proof fn law_input_validation(input: UseAwsInput)
    ensures
        input_error(input) is None <==> (input.service_name@.len() > 0 && input.operation_name@.len() > 0
            && input.region@.len() > 0 && input.parameters.kind == JsonKind::Object),
        input.service_name@.len() == 0 ==> (input_error(input) matches Some(e) && has_prefix(e, "service_name"@)),
        input.service_name@.len() > 0 && input.operation_name@.len() == 0 ==> (input_error(input) matches Some(e)
            && has_prefix(e, "operation_name"@)),
        input.service_name@.len() > 0 && input.operation_name@.len() > 0 && input.region@.len() == 0
            ==> (input_error(input) matches Some(e) && has_prefix(e, "region"@)),
        input.service_name@.len() > 0 && input.operation_name@.len() > 0 && input.region@.len() > 0
            && input.parameters.kind != JsonKind::Object ==> (input_error(input) matches Some(e) && has_suffix_of(
            e,
            kind_name(input.parameters.kind),
        )),
{
    reveal_strlit("service_name");
    reveal_strlit("operation_name");
    reveal_strlit("region");
    reveal_strlit("service_name cannot be empty. Use lowercase AWS service names like 'sts', 'dynamodb', 's3'.");
    reveal_strlit("operation_name cannot be empty. Use PascalCase operation names like 'GetCallerIdentity', 'ListBuckets'.");
    reveal_strlit("region cannot be empty. Use AWS region codes like 'us-east-1', 'eu-west-1'.");
    reveal_strlit("parameters must be a JSON object, got: ");
    let e = input_error(input);
    if input.service_name@.len() == 0 {
        assert(e->0.take(12) =~= "service_name"@);
    } else if input.operation_name@.len() == 0 {
        assert(e->0.take(14) =~= "operation_name"@);
    } else if input.region@.len() == 0 {
        assert(e->0.take(6) =~= "region"@);
    } else if input.parameters.kind != JsonKind::Object {
        let pre = "parameters must be a JSON object, got: "@;
        let k = kind_name(input.parameters.kind);
        assert((pre + k).skip(pre.len() as int) =~= k);
    }
}

/// Whether `s` ends with `t`.
pub open spec fn has_suffix_of(s: Seq<char>, t: Seq<char>) -> bool {
    t.len() <= s.len() && s.skip(s.len() - t.len()) == t
}

/// A request for an operation goes to the service's endpoint and is
/// signed over the endpoint's host, the JSON content type, the target
/// `{prefix}.{operation}` whose prefix is the service's configured one
/// (the service name itself when it has none), and the session token
/// exactly when one is given.
pub proof fn law_request_headers(
    targets: Map<Seq<char>, Seq<char>>,
    service: Seq<char>,
    operation: Seq<char>,
    region: Seq<char>,
    token: Option<Seq<char>>,
)
    ensures
        spec_request_plan(targets, service, operation, region, token) matches Ok((e, hs)) ==> {
            let prefix = if targets.contains_key(service) { targets[service] } else { service };
            &&& e == spec_endpoint(service, region)
            &&& hs.len() == if token is Some { 4int } else { 3int }
            &&& hs[0].0 == "host"@
            &&& hs[1] == ("content-type"@, "application/x-amz-json-1.1; charset=utf-8"@)
            &&& hs[2] == ("x-amz-target"@, prefix + "."@ + operation)
            &&& token matches Some(t) ==> hs[3] == ("x-amz-security-token"@, t)
        },
{
}

/// A tool built with custom targets uses a custom prefix where one was
/// given for the service, else the default prefix of a known service,
/// else the service name.
pub proof fn law_custom_targets_override(custom: Map<Seq<char>, Seq<char>>, service: Seq<char>)
    ensures
        spec_service_target(default_targets().union_prefer_right(custom), service) == if custom.contains_key(service) {
            custom[service]
        } else if default_targets().contains_key(service) {
            default_targets()[service]
        } else {
            service
        },
{
}

} // verus!
