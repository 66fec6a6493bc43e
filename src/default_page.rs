//! The page served where a site has no content of its own yet.

use vstd::prelude::*;
use crate::security::SecureFileServer;
use crate::text::push_str;

verus! {

pub const DEFAULT_PAGE_HEAD: &'static str = r#"<!DOCTYPE html>
<html lang="en">
<head>
    <meta charset="UTF-8">
    <meta name="viewport" content="width=device-width, initial-scale=1.0">
    <title>easyp HTTPS Server</title>
    <style>
        body {
            font-family: -apple-system, BlinkMacSystemFont, 'Segoe UI', Roboto, sans-serif;
            margin: 0;
            padding: 20px;
            background: linear-gradient(135deg, #667eea 0%, #764ba2 100%);
            color: #333;
            min-height: 100vh;
            display: flex;
            flex-direction: column;
            align-items: center;
            justify-content: center;
        }
        .container {
            background: white;
            padding: 40px;
            border-radius: 15px;
            box-shadow: 0 20px 40px rgba(0,0,0,0.1);
            max-width: 800px;
            width: 100%;
            text-align: center;
        }
        .header {
            margin-bottom: 30px;
        }
        .header h1 {
            color: #2c3e50;
            margin: 0;
            font-size: 2.5em;
            font-weight: 300;
        }
        .header p {
            color: #7f8c8d;
            margin: 10px 0 0 0;
            font-size: 1.1em;
        }
        .status-badge {
            display: inline-block;
            padding: 8px 16px;
            background: #27ae60;
            color: white;
            border-radius: 20px;
            font-size: 0.9em;
            margin: 10px 0;
        }
        .info-section {
            margin: 30px 0;
            text-align: left;
        }
        .info-section h2 {
            color: #34495e;
            border-bottom: 2px solid #3498db;
            padding-bottom: 5px;
        }
        .info-grid {
            display: grid;
            grid-template-columns: repeat(auto-fit, minmax(250px, 1fr));
            gap: 20px;
            margin: 20px 0;
        }
        .info-card {
            background: #f8f9fa;
            padding: 20px;
            border-radius: 8px;
            border-left: 4px solid #3498db;
        }
        .info-card h3 {
            margin: 0 0 10px 0;
            color: #2c3e50;
        }
        .info-card p {
            margin: 0;
            color: #7f8c8d;
            font-size: 0.9em;
        }
        .getting-started {
            background: #e8f4fd;
            border: 1px solid #bee5eb;
            border-radius: 8px;
            padding: 20px;
            margin: 20px 0;
            text-align: left;
        }
        .getting-started h3 {
            color: #0c5460;
            margin: 0 0 15px 0;
        }
        .getting-started ol {
            margin: 0;
            padding-left: 20px;
        }
        .getting-started li {
            margin: 8px 0;
            color: #495057;
        }
        .footer {
            margin-top: 30px;
            padding-top: 20px;
            border-top: 1px solid #dee2e6;
            color: #6c757d;
            font-size: 0.9em;
        }
    </style>
</head>
<body>
    <div class="container">
        <div class="header">
            <h1>🔒 easyp HTTPS Server</h1>
            <p>Secure web server with automatic ACME certificate management</p>
            <div class="status-badge">🟢 Running</div>
        </div>

        <div class="info-section">
            <h2>Server Information</h2>
            <div class="info-grid">
                <div class="info-card">
                    <h3>🌐 Domain</h3>
                    <p>"#;

pub const DEFAULT_PAGE_AFTER_DOMAIN: &'static str = r#"</p>
                </div>
                <div class="info-card">
                    <h3>🔒 Security</h3>
                    <p>ACME certificates<br>Path sanitization<br>Privilege dropping</p>
                </div>
                <div class="info-card">
                    <h3>📁 Document Root</h3>
                    <p>"#;

pub const DEFAULT_PAGE_AFTER_ROOT: &'static str = r#"</p>
                </div>
                <div class="info-card">
                    <h3>⚡ Features</h3>
                    <p>HTTP/HTTPS support<br>WebAssembly ready<br>MIME type handling</p>
                </div>
            </div>
        </div>

        <div class="getting-started">
            <h3>🚀 Getting Started</h3>
            <p>To serve your own content, add files to your document root:</p>
            <ol>
                <li>Create an <code>index.html</code> file in your document root directory</li>
                <li>Add other HTML, CSS, JavaScript, or media files as needed</li>
                <li>The server will automatically serve files with proper MIME types</li>
                <li>All requests are validated for security (no directory traversal attacks)</li>
            </ol>
            <p><strong>Current document root:</strong> <code>"#;

pub const DEFAULT_PAGE_TAIL: &'static str = r#"</code></p>
        </div>

        <div class="info-section">
            <h2>🔧 Security Features</h2>
            <div class="info-grid">
                <div class="info-card">
                    <h3>🛡️ Path Sanitization</h3>
                    <p>Prevents directory traversal attacks (../) and access to hidden files</p>
                </div>
                <div class="info-card">
                    <h3>👤 Privilege Dropping</h3>
                    <p>Drops to unprivileged user (nobody) after binding to privileged ports</p>
                </div>
                <div class="info-card">
                    <h3>🔗 Path Canonicalization</h3>
                    <p>Resolves symlinks safely and validates all paths are within document root</p>
                </div>
                <div class="info-card">
                    <h3>📋 File Type Support</h3>
                    <p>Comprehensive MIME type support for web files, images, and WebAssembly</p>
                </div>
            </div>
        </div>

        <div class="footer">
            <p>Powered by <strong>rustls</strong> with ACME certificate management</p>
            <p>Visit <a href="https://github.com/rustls/rustls" target="_blank">rustls on GitHub</a> for more information</p>
        </div>
    </div>
</body>
</html>"#;

/// The informational page shown where a site has no `index.html`: the
/// fixed text with the domain and, twice, the document root filled in.
pub open spec fn default_page(domain: Seq<char>, root: Seq<char>) -> Seq<char> {
    DEFAULT_PAGE_HEAD@ + domain + DEFAULT_PAGE_AFTER_DOMAIN@ + root + DEFAULT_PAGE_AFTER_ROOT@ + root
        + DEFAULT_PAGE_TAIL@
}

impl SecureFileServer {
    /// The informational page for `domain`.
    pub fn generate_default_page(&self, domain: &str) -> (r: String)
        ensures
            r@ == default_page(domain@, self.cfg().document_root@),
    {
        let root = self.config().document_root.as_str();
        let mut page = String::new();
        push_str(&mut page, DEFAULT_PAGE_HEAD);
        push_str(&mut page, domain);
        push_str(&mut page, DEFAULT_PAGE_AFTER_DOMAIN);
        push_str(&mut page, root);
        push_str(&mut page, DEFAULT_PAGE_AFTER_ROOT);
        push_str(&mut page, root);
        push_str(&mut page, DEFAULT_PAGE_TAIL);
        page
    }
}

} // verus!
